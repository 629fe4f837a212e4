[package]
name = "dmv_pipeline"
version = "0.1.0"
edition = "2021"
publish = false

[dependencies]
rstar = "*"
geojson = "*"
serde = { version = "*", features = ["derive"] }
serde_json = "*"
dotenv = "*"
reqwest = { version = "*", default-features = false, features = ["json", "rustls-tls"] }
tokio = { version = "*", features = ["rt-multi-thread", "macros", "time"] }
