[package]
name = "remind_me_to"
version = "0.1.0"
edition = "2021"
publish = false

[dependencies]
versions = "=6.3.2"
jiff = "=0.2.39"
ureq = { version = "=3.5.1", features = ["json"] }
http = "=1.5.0"
serde = { version = "=1.0.229", features = ["derive"] }
serde_json = "=1.0.154"
clap = { version = "=4.6.7", features = ["derive"] }
colored = "=2.2.0"
env_logger = "=0.11.11"
log = "=0.4.35"
ignore = "=0.4.34"
thiserror = "=2.0.21"
tracing = "=0.1.44"
tracing-subscriber = { version = "=0.3.23", features = ["env-filter"] }
chumsky = "=1.0.0-alpha.8"
