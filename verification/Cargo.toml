[package]
name = "dir_index"
version = "0.1.0"
edition = "2021"
publish = false

[dependencies]
chrono = { version = "0.4", default-features = false, features = ["std"] }
mime_guess = "2"
pretty-bytes = "0.2"
rocket = "0.5"
rocket_dyn_templates = { version = "0.2", features = ["handlebars"] }
serde = { version = "1", features = ["derive"] }
serde_json = "1"
