[package]
name = "setlist_jwt"
version = "0.1.0"
edition = "2021"
publish = false

[dependencies]
scraper = "*"
ego-tree = "*"
jsonwebtoken = "9"
chrono = "*"
dotenv = "*"
tokio = { version = "1", features = ["macros", "rt-multi-thread", "fs"] }
reqwest = { version = "*", default-features = false }

[dev-dependencies]
ring = "0.17"
pem = "3"
