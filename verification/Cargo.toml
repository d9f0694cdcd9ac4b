[package]
name = "json_schema_to_zod"
version = "0.2.0"
edition = "2021"
publish = false

[dependencies]
serde_json = { version = "1", features = ["preserve_order"] }
