[package]
name = "gap_rules"
version = "0.1.0"
edition = "2021"
publish = false

[dependencies]
css_parse = "=0.0.36"
css_lexer = "=0.0.36"
serde = { version = "=1.0.229", features = ["derive"] }

[dev-dependencies]
csskit_derives = "=0.0.36"
