[package]
name = "actix_bootstrap"
version = "0.1.0"
edition = "2021"
publish = false

[dependencies]
rand = "=0.10.3"
sha2 = "=0.10.9"
serde = { version = "=1.0.229", features = ["derive"] }
serde_yaml = "=0.9.34"
once_cell = "=1.21.4"
bytes = "=1.12.1"
async-trait = "=0.1.92"
reqwest = { version = "=0.13.5", default-features = false, features = ["blocking"] }
actix-web = { version = "=4.18.1", default-features = false, features = ["macros"] }
utoipa = "=5.5.0"
utoipa-swagger-ui = { version = "=9.0.2", features = ["actix-web", "vendored"] }
lettre = { version = "=0.11.23", features = ["tokio1", "tokio1-native-tls"] }
sea-orm = { version = "=2.0.4", default-features = false, features = ["macros", "with-chrono", "entity-registry", "schema-sync", "sqlx-sqlite", "runtime-tokio"] }
env_logger = { version = "=0.11.11", default-features = false }
