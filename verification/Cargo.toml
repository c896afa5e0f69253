[package]
name = "z-tools"
version = "0.1.0"
edition = "2021"
publish = false

[dependencies]
blake3 = "1"
image = { version = "0.25", default-features = false, features = ["png"] }
arboard = { version = "3", default-features = false, features = ["image-data"] }
serde = { version = "1", features = ["derive"] }
serde_json = "1"
thiserror = "2"
log = "0.4"
sqlx = { version = "0.8", default-features = false, features = ["sqlite", "runtime-tokio"] }
x11rb = { version = "0.13", features = ["xfixes", "xtest"] }
