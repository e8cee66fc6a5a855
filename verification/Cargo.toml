[package]
name = "opcode_bench"
version = "0.1.0"
edition = "2021"
publish = false

[dependencies]
revm = { version = "=14.0.3", default-features = false, features = ["std"] }
revm-interpreter = { version = "=10.0.3", default-features = false, features = ["std"] }
revm-primitives = { version = "=10.0.0", default-features = false, features = ["std"] }
csv = "=1.4.0"
