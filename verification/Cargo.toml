[package]
name = "jwt_middleware"
version = "0.1.0"
edition = "2021"

[dependencies]
hmac = "=0.13.0"
sha2 = "=0.11.0"
tide = "=0.16.0"
async-std = "=1.13.2"
async-trait = "=0.1.92"
serde = { version = "*", features = ["derive"] }
