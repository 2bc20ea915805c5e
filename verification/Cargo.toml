[package]
name = "rlox"
version = "0.1.0"
edition = "2021"
publish = false

[dependencies]
thiserror = "1"
phf = { version = "0.11", features = ["macros"] }
syn = { version = "2", features = ["full"] }
quote = "1"
proc-macro2 = "1"
prettyplease = "0.2"

[dev-dependencies]
tempfile = "3"
