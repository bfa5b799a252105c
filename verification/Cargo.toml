[package]
name = "rt"
version = "0.1.0"
edition = "2021"
publish = false

[dependencies]
png = "*"
quick-xml = { version = "*", features = ["serialize"] }
rand = "*"
rayon = "*"
serde = { version = "*", features = ["derive"] }
