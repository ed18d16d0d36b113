[package]
name = "popgetter"
version = "0.1.0"
edition = "2021"
publish = false

[dependencies]
anyhow = "=1.0.104"
chrono = { version = "=0.4.45", default-features = false, features = ["std"] }
clap = { version = "=4.6.7", features = ["derive"] }
dirs = "=7.0.0"
flatgeobuf = { version = "=6.0.1", default-features = false, features = ["http"] }
futures = { version = "=0.3.34", default-features = false, features = ["std"] }
geozero = { version = "=0.15.1", default-features = false, features = ["with-wkt", "with-geojson"] }
polars = { version = "=0.55.2", default-features = false, features = ["parquet", "dtype-date", "dtype-datetime"] }
regex = "=1.13.1"
reqwest = { version = "=0.12.28", default-features = false, features = ["rustls-tls"] }
serde = { version = "=1.0.229", features = ["derive"] }
serde_json = "=1.0.151"
tokio = { version = "=1.53.2", features = ["rt-multi-thread", "macros"] }
