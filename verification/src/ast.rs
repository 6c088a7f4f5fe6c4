//! Statements: one parsed command line each.

use crate::tuple::{Tuple, Value};
use vstd::prelude::*;

verus! {

/// The operation that a statement asks for.
#[derive(Clone, Copy, Debug, PartialEq, Eq, Structural)]
pub enum Keyword {
    /// `in`: retrieve and remove a compatible tuple.
    In,
    /// `rd`: retrieve a copy of a compatible tuple.
    Rd,
    /// `out`: insert a tuple.
    Out,
}

/// A command against the tuple space.
#[derive(Debug, PartialEq)]
pub enum Statement {
    /// Retrieve and remove a tuple compatible with the pattern.
    In(Tuple),
    /// Retrieve a copy of a tuple compatible with the pattern.
    Rd(Tuple),
    /// Insert the tuple.
    Out(Tuple),
}

/// The mathematical value of a statement.
pub enum StatementView {
    In(Seq<Value>),
    Rd(Seq<Value>),
    Out(Seq<Value>),
}

impl StatementView {
    /// The statement of a keyword and its tuple.
    pub open spec fn new(keyword: Keyword, tuple: Seq<Value>) -> StatementView {
        match keyword {
            Keyword::In => StatementView::In(tuple),
            Keyword::Rd => StatementView::Rd(tuple),
            Keyword::Out => StatementView::Out(tuple),
        }
    }

    /// The statement's keyword.
    pub open spec fn keyword(self) -> Keyword {
        match self {
            StatementView::In(_) => Keyword::In,
            StatementView::Rd(_) => Keyword::Rd,
            StatementView::Out(_) => Keyword::Out,
        }
    }

    /// The statement's tuple.
    pub open spec fn tuple(self) -> Seq<Value> {
        match self {
            StatementView::In(t) => t,
            StatementView::Rd(t) => t,
            StatementView::Out(t) => t,
        }
    }
}

impl View for Statement {
    type V = StatementView;

    open spec fn view(&self) -> StatementView {
        match self {
            Statement::In(t) => StatementView::In(t@),
            Statement::Rd(t) => StatementView::Rd(t@),
            Statement::Out(t) => StatementView::Out(t@),
        }
    }
}

impl Statement {
    /// The statement of a keyword and its tuple.
    pub fn new(keyword: Keyword, tuple: Tuple) -> (s: Statement)
        ensures
            s@ == StatementView::new(keyword, tuple@),
    {
        match keyword {
            Keyword::In => Statement::In(tuple),
            Keyword::Rd => Statement::Rd(tuple),
            Keyword::Out => Statement::Out(tuple),
        }
    }

    /// The statement's keyword.
    pub fn keyword(&self) -> (k: Keyword)
        ensures
            k == self@.keyword(),
    {
        match self {
            Statement::In(_) => Keyword::In,
            Statement::Rd(_) => Keyword::Rd,
            Statement::Out(_) => Keyword::Out,
        }
    }

    /// The statement's tuple.
    pub fn tuple(&self) -> (t: &Tuple)
        ensures
            t@ == self@.tuple(),
    {
        match self {
            Statement::In(t) => t,
            Statement::Rd(t) => t,
            Statement::Out(t) => t,
        }
    }
}

} // verus!
