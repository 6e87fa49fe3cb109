[package]
name = "azs_site"
version = "0.1.0"
edition = "2021"
publish = false

[dependencies]
chrono = "0.4"
actix-web = { version = "4", default-features = false, features = ["macros", "cookies"] }
actix-cors = "0.7"
actix-files = "0.6"
sqlx = { version = "0.8", default-features = false, features = ["runtime-tokio", "mysql", "sqlite", "derive", "migrate"] }
tokio = { version = "1", features = ["macros", "rt-multi-thread", "sync", "fs", "io-util"] }
serde = { version = "1", features = ["derive"] }
serde_json = "1"
ramhorns = "1"
jsonwebtoken = "9"
http = "0.2"
once_cell = "1"
futures-util = "0.3"
thiserror = "1"
utoipa = "4"
