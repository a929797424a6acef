[package]
name = "evm_ink_bridge"
version = "0.1.0"
edition = "2021"
publish = false

[dependencies]
ethabi = "18"
hex = "0.4"
sha3 = "0.10"
serde = { version = "1", features = ["derive"] }
serde_json = "1"
tinytemplate = "1"
convert_case = "0.6"
clap = { version = "4", features = ["derive"] }
anyhow = "1"
thiserror = "1"
json = "0.12"
ink_metadata = "3"
scale-info = "2"
