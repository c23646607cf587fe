[package]
name = "http_dir"
version = "0.1.0"
edition = "2021"
publish = false

[dependencies]
percent-encoding = "=2.3.2"
mime_guess = "=2.0.5"
http-range-header = "=0.3.1"
http = "=0.2.12"
http-body = "=0.4.6"
bytes = "=1.12.1"
tokio = { version = "=1.53.2", features = ["fs", "io-util", "rt"] }
tokio-util = { version = "=0.7.19", features = ["io"] }
tower-service = "=0.3.3"
tower-http = { version = "=0.4.4", features = ["set-status"] }
futures-util = "=0.3.34"
pin-project = "=1.1.13"
include_dir = { version = "0.7", features = ["metadata"] }
