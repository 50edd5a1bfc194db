[package]
name = "webdav_server"
version = "0.1.0"
edition = "2021"
publish = false

[dependencies]
anyhow = "1"
bytes = "1"
clap = { version = "4", features = ["derive"] }
dav-server = "*"
futures-util = "0.3"
headers = "0.4"
http = "1"
http-body-util = "0.1"
hyper = { version = "1", features = ["server", "http1"] }
hyper-util = { version = "0.1", features = ["tokio"] }
percent-encoding = "2"
rusqlite = "*"
subtle = "2"
tokio = { version = "1", features = ["rt-multi-thread", "net", "macros"] }
uuid = { version = "1", features = ["v4"] }
