[package]
name = "mcserver"
version = "0.1.0"
edition = "2021"
publish = false

[dependencies]
kdl = "6"
shellexpand = "3"
dirs = "6"
url = "2"
reqwest = { version = "0.12", default-features = false, features = ["blocking", "json", "rustls-tls"] }
serde = { version = "1", features = ["derive"] }
thiserror = "2"
clap = { version = "4", features = ["derive"] }
clap_complete = { version = "4", features = ["unstable-dynamic"] }
color-eyre = "0.6"
