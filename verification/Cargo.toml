[package]
name = "logcat"
version = "0.1.0"
edition = "2021"
publish = false

[dependencies]
anyhow = "1"
atty = "0.2"
bstr = "1"
clap = { version = "4", features = ["derive"] }
colored = "3"
nonempty-collections = "*"
regex = "1"
time = { version = "0.3", features = ["parsing", "formatting"] }
