[package]
name = "debian_repo"
version = "0.1.0"
edition = "2021"
publish = false

[dependencies]
async-trait = "0.1"
axum = "0.7"
bytes = "1"
bzip2 = "0.4"
chrono = { version = "0.4", features = ["serde"] }
flate2 = "1"
futures = "0.3"
hex = "0.4"
serde = { version = "1", features = ["derive"] }
serde_json = "1"
sha2 = "0.10"
sqlx = { version = "0.8", default-features = false, features = ["runtime-tokio", "postgres", "uuid", "chrono", "json"] }
tar = "0.4"
tracing = "0.1"
utoipa = { version = "5", features = ["uuid", "chrono"] }
uuid = { version = "1", features = ["v4", "serde"] }
xz2 = { version = "0.1", features = ["static"] }
zstd = "0.13"
