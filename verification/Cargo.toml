[package]
name = "joogle"
version = "0.1.0"
edition = "2021"
publish = false

[dependencies]
regex = "1"
url = "2"
url-escape = "0.1"
uuid = "1"
xml-rs = "0.8"
rocket = { version = "0.5", features = ["json"] }
rocket_db_pools = { version = "0.2", features = ["diesel_postgres"] }
diesel = { version = "2", default-features = false, features = ["postgres_backend", "uuid", "chrono"] }
maud = { version = "0.26", features = ["rocket"] }
rusqlite = "0.31"
r2d2 = "0.8"
r2d2_sqlite = "0.24"
scraper = "0.19"
tokio = { version = "1", features = ["rt-multi-thread"] }
lazy_static = "1"
serde = "1"
serde_derive = "1"
chrono = { version = "0.4", features = ["serde"] }
jsonwebtoken = "9"
tar = "0.4"
dotenv-vault = "0.1"
