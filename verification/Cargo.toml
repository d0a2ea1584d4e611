[package]
name = "membrane_invitations"
version = "0.1.0"
edition = "2021"
publish = false

[dependencies]
hdk = { version = "=0.0.130", features = ["encoding"] }
holo_hash = { version = "=0.0.23", features = ["encoding"] }
rmp = "=0.8.10"
serde = { version = "1", features = ["derive"] }
