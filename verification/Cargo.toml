[package]
name = "icefalldb_query"
version = "0.1.0"
edition = "2021"
publish = false

[dependencies]
arrow = "=58.4.1"
async-trait = "=0.1.92"
base64 = "=0.22.1"
datafusion-execution = { version = "=54.1.0", default-features = false }
datafusion-sql = { version = "=54.1.0", default-features = false }
futures = { version = "=0.3.34", default-features = false, features = ["std"] }
object_store = { version = "=0.13.2", default-features = false }
parquet = { version = "=58.4.1", default-features = false, features = ["arrow", "encryption"] }
serde = { version = "=1.0.229", default-features = false, features = ["derive"] }
thiserror = "=2.0.21"
tokio = { version = "=1.54.1", default-features = false, features = ["sync"] }
