[package]
name = "ypbank_records"
version = "0.1.0"
edition = "2021"
publish = false

[dependencies]
csv = "1"
serde = { version = "1", features = ["derive"] }
serde_with = "3"
syn = "2"
quote = "1"
convert_case = "*"
bitflags = "2"
