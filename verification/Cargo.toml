[package]
name = "tenover"
version = "0.1.0"
edition = "2021"
publish = false

[dependencies]
prost = "=0.14.4"
thiserror = "=2.0.21"
flightrelay = { version = "=0.3.1", features = ["transport"] }
zbus = "=5.19.0"
libc = "=0.2.191"
serde = { version = "=1.0.229", features = ["derive"] }
