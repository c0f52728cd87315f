[package]
name = "tesla_auth"
version = "0.1.0"
edition = "2021"
publish = false

[dependencies]
jsonwebtoken = { version = "=11.1.0", features = ["rust_crypto"] }
bcrypt = "=0.19.3"
base64 = "=0.22.1"
actix-web = "*"
chrono = "*"
serde = { version = "*", features = ["derive"] }
dotenv = "*"
tokio = { version = "*", features = ["signal", "macros", "rt-multi-thread"] }
tracing = "*"
tracing-subscriber = { version = "*", features = ["env-filter", "fmt"] }
tracing-actix-web = "*"
url = "*"
validator = { version = "*", features = ["derive"] }
thiserror = "*"
futures-util = "*"
diesel = { version = "*", features = ["postgres", "r2d2"] }
r2d2 = "*"
