[package]
name = "http_helper"
version = "0.1.0"
edition = "2021"
publish = false

[dependencies]
bytes = "1"
curl = "0.4"
form_urlencoded = "1"
http = "1"
mime = "0.3"
multipart = { version = "0.18", default-features = false, features = ["server"] }
serde = { version = "1", features = ["derive"] }
thiserror = "1"
url = "2"
urlencoding = "2"
