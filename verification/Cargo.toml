[package]
name = "singularity"
version = "0.1.0"
edition = "2021"
publish = false

[dependencies]
sha2 = "*"
hex = "*"
serde = { version = "*", features = ["derive"] }
serde_json = "*"
quick-xml = { version = "*", features = ["serialize"] }
zip = "*"
sevenz-rust = "*"
unrar = "*"
chrono = "*"
