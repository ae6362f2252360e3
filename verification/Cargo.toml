[package]
name = "usml_core"
version = "0.1.0"
edition = "2021"
publish = false

[dependencies]
clap = "4"
dbml-rs = "*"
openapi3-parser = "*"
serde = { version = "1", features = ["derive"] }
serde_yaml = "0.9"
thiserror = "*"
