[package]
name = "bc-mur"
version = "0.1.0"
edition = "2021"
publish = false

[dependencies]
qrcode = { version = "*", default-features = false }
image = { version = "*", default-features = false, features = ["png", "jpeg"] }
color_quant = "*"
gif = "*"
bc-ur = "*"
resvg = "*"
tempfile = "*"
clap = { version = "*", features = ["derive"] }
thiserror = "*"
anyhow = "*"

[dev-dependencies]
dcbor = "*"
