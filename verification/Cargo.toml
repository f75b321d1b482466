[package]
name = "graphql_parser"
version = "0.1.0"
edition = "2021"

[dependencies]
combine = "=3.8.1"
thiserror = "=1.0.69"
serde = { version = "=1.0.229", features = ["derive"] }
