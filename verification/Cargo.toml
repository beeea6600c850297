[package]
name = "http_file_server"
version = "0.1.0"
edition = "2021"
publish = false

[dependencies]
anyhow = "1"
base64 = "0.22"
clap = { version = "4", features = ["derive"] }
futures-util = "0.3"
http-body-util = "0.1"
hyper = { version = "1", features = ["server", "http1"] }
hyper-util = { version = "0.1", features = ["tokio"] }
log = "0.4"
maud = "0.26"
mime_guess = "2"
multer = "3"
simple_logger = "5"
tokio = { version = "1", features = ["full"] }
