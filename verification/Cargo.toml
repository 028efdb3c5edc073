[package]
name = "zipease-extract"
version = "0.1.0"
edition = "2021"
publish = false

[dependencies]
crc32fast = "=1.5.4"
flate2 = "=1.1.10"
globset = "=0.4.21"
serde = { version = "=1.0.229", features = ["derive"] }
serde_json = "=1.0.154"
zip = "=2.6.1"
cab = "=0.6.0"
trash = "*"
unrar = "*"
libloading = "*"
log = "*"
simplelog = "*"
ctor = "*"
