[package]
name = "sshtup"
version = "0.1.0"
edition = "2021"
publish = false

[dependencies]
env_logger = "=0.11.11"
log = "0.4"
thrussh = "=0.49.0"
thrussh-keys = "=0.44.0"
tokio = { version = "1", features = ["rt-multi-thread", "time"] }

[dev-dependencies]
rustupolis = "=0.0.2"
