[package]
name = "nutmeg"
version = "0.1.0"
edition = "2021"
publish = false

[dependencies]
arrow = { version = "=59.3.2", default-features = false }
serde_json = "=1.0.154"
grust-algorithms = { version = "=0.24.0", features = ["arrow"] }
grust-algorithm-procedures = { version = "=0.24.0", features = ["arrow"] }
grust-procedures = "=0.24.0"
grust-core = "=0.24.0"
once_cell = "=1.21.4"
futures = "=0.3.34"
async-trait = "=0.1.92"
tokio = { version = "=1.54.1", features = ["sync", "rt", "macros"] }
datafusion = { version = "=55.2.0", default-features = false }
