[package]
name = "mail-headers"
version = "0.1.0"
edition = "2021"
publish = false

[dependencies]
total-order-multi-map = "=0.4.6"
idna = "=1.1.0"
soft-ascii-string = "=1.1.0"
vec1 = "=1.12.1"
chrono = "=0.4.45"
serde = { version = "=1.0.229", features = ["derive"] }

[dev-dependencies]
quoted-string = "=0.6.1"
