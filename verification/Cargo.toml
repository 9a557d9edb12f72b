[package]
name = "gdtf"
version = "0.1.0"
edition = "2021"
publish = false

[dependencies]
serde = { version = "1", features = ["derive"] }
quick-xml = { version = "*", features = ["serialize"] }
serde_path_to_error = "*"
thiserror = "*"
uuid = { version = "1", features = ["serde"] }
zip = "*"
