[package]
name = "testit"
version = "0.1.0"
edition = "2021"
publish = false

[dependencies]
regex = "*"
uuid = { version = "*", features = ["v4"] }
actix-web = { version = "*", features = ["openssl"] }
openssl = "*"
tokio = { version = "*", features = ["rt-multi-thread", "macros", "signal", "time", "sync"] }
clap = { version = "*", features = ["derive"] }
