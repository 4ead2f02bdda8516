[package]
name = "valve-server-manager"
version = "0.1.0"
edition = "2021"
publish = false

[dependencies]
crossterm = "0.27"
ctrlc = "3"
directories = "5"
is_elevated = "0.1"
libc = "0.2"
ratatui = "0.26"
serde = { version = "1", features = ["derive"] }
serde_json = "1"
toml = "0.8"
ureq = "2"
