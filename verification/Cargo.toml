[package]
name = "slack_relay"
version = "0.1.0"
edition = "2021"
publish = false

[dependencies]
base64 = "=0.23.1"
bcrypt = "=0.19.3"
chrono = "=0.4.45"
jsonwebtoken = { version = "=11.1.0", features = ["rust_crypto"] }
serde = { version = "*", features = ["derive"] }
serde_json = "*"
actix-web = "*"
actix-cors = "*"
actix-service = "*"
futures = "*"
diesel = { version = "*", features = ["postgres", "r2d2", "chrono"] }
dotenv = "*"
r2d2 = "*"
reqwest = { version = "*", default-features = false, features = ["json", "blocking"] }
