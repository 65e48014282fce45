[package]
name = "unit_resolver"
version = "0.1.0"
edition = "2021"
publish = false

[dependencies]
log = "*"
petgraph = "*"
serde = { version = "1", features = ["derive"] }
strum = "*"
strum_macros = "*"
thiserror = "*"
toml = "*"
