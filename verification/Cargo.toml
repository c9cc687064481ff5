[package]
name = "transit_tsp"
version = "0.1.0"
edition = "2021"
publish = false

[dependencies]
color-eyre = "*"
dotenv = "*"
eyre = "*"
rayon = "*"
reqwest = { version = "*", default-features = false, features = ["blocking", "json", "rustls-tls"] }
serde = { version = "*", features = ["derive"] }
serde_json = "*"
urlencoding = "*"
