[package]
name = "dpaste"
version = "0.1.0"
edition = "2021"
publish = false

[dependencies]
aes-gcm = "0.10"
alloy = { version = "1", default-features = false, features = ["std", "rlp"] }
alloy-rlp = "0.3"
chrono = { version = "0.4", default-features = false, features = ["std", "clock"] }
clap = { version = "4", default-features = false, features = ["std", "derive", "help", "usage", "error-context"] }
colored = "2"
data-encoding = "2"
pbkdf2 = "0.12"
rand = "0.9"
rand_chacha = "0.9"
reqwest = { version = "0.12", default-features = false }
serde = { version = "1", features = ["derive"] }
sha2 = "0.10"
tokio = { version = "1", features = ["rt", "macros"] }
xdg = "2"
