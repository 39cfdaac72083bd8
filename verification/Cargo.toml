[package]
name = "doxygen_docx"
version = "0.1.0"
edition = "2021"
publish = false

[dependencies]
docx-rs = "=0.4.22"
regex-syntax = "=0.8.11"
encoding = "=0.2.33"
clap = { version = "=4.6.7", features = ["derive"] }
indicatif = "=0.17.11"
rayon = "=1.12.0"
iced = { version = "=0.9.0", default-features = false, features = ["glow"] }

[dev-dependencies]
regex = "=1.13.1"
