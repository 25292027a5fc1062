[package]
name = "metastasa"
version = "0.1.0"
edition = "2021"
publish = false

[dependencies]
petgraph = "*"
sled = "*"
lru = "*"
uuid = { version = "*", features = ["v4"] }
regex = "*"
lazy_static = "*"
serde = { version = "*", features = ["derive"] }
serde_json = "*"
reqwest = { version = "*", default-features = false, features = ["json", "rustls-tls"] }
tokio = { version = "*", features = ["macros", "rt-multi-thread"] }
actix-web = "*"
rayon = "*"
bumpalo = "*"
chrono = "*"

[dev-dependencies]
rand = "*"
