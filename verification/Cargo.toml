[package]
name = "cyberark-rdp"
version = "0.1.0"
edition = "2021"
publish = false

[dependencies]
anyhow = "=1.0.104"
bytes = "=1.12.1"
clap = { version = "=4.6.7", features = ["derive"] }
directories = "=6.0.0"
ironrdp-pdu = "=0.11.0"
ironrdp-tls = { version = "=0.3.0", default-features = false, features = ["rustls"] }
rpassword = "=7.5.4"
rustls = { version = "=0.23.46", default-features = false, features = ["ring", "std", "tls12", "logging"] }
rustls-native-certs = "=0.8.5"
serde = { version = "=1.0.229", features = ["derive"] }
serde_yaml = "=0.9.34"
tracing = "=0.1.44"
tracing-subscriber = "=0.3.23"
uuid = { version = "=1.29.0", features = ["v4"] }
x509-cert = "=0.3.0"
