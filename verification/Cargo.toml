[package]
name = "gas_station"
version = "0.1.0"
edition = "2021"
publish = false

[dependencies]
axum = "0.7"
bcrypt = "*"
diesel = { version = "2", features = ["sqlite", "r2d2"] }
diesel_migrations = "2"
dioxus = { version = "0.6", features = ["fullstack", "router", "server"] }
dotenvy = "0.15"
getrandom = "0.3"
once_cell = "1"
reqwest = "0.12"
scraper = "*"
serde = { version = "1", features = ["derive"] }
tokio = { version = "1", features = ["full"] }
