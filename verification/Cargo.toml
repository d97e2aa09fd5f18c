[package]
name = "pkatt"
version = "0.1.0"
edition = "2021"
publish = false

[dependencies]
smol = "*"
uzers = "*"
nix = { version = "*", features = ["user"] }
pam = "*"
zbus = "*"
zbus_polkit = "*"
serde = { version = "*", features = ["derive"] }
serde_json = "*"
log = "*"
env_logger = "*"
color-eyre = "*"
anyhow = "*"
