[package]
name = "robinson"
version = "0.1.0"
edition = "2021"
publish = false

[dependencies]
html_parser = "0.7"
clap = { version = "4", features = ["derive"] }
tokio = { version = "1", features = ["macros", "rt-multi-thread"] }
reqwest = { version = "0.11", default-features = false }
thiserror = "1"
image = { version = "0.24", default-features = false }
glam = "0.23"
bytemuck = { version = "1", features = ["derive"] }
