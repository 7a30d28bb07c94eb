[package]
name = "file_backup_service"
version = "0.1.0"
edition = "2021"
publish = false

[dependencies]
tokio = { version = "*", features = ["full"] }
tokio-rustls = "*"
rustls = "*"
rustls-pemfile = "*"
rustls-native-certs = "*"
webpki-roots = "*"
clap = { version = "*", features = ["derive"] }
log = "*"
