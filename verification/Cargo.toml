[package]
name = "calco"
version = "0.1.0"
edition = "2021"
publish = false

[dependencies]
actix-files = "*"
actix-rt = "*"
actix-web = "*"
chrono = "*"
clipboard = "*"
maud = { version = "*", features = ["actix-web"] }
ring = "*"
rusqlite = "*"
serde = { version = "*", features = ["derive"] }
uuid = { version = "*", features = ["v4"] }
