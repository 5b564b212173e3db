[package]
name = "libcalibre"
version = "0.1.0"
edition = "2021"
publish = false

[dependencies]
chrono = "*"
deunicode = "*"
diesel = { version = "*", features = ["sqlite"], default-features = false }
isolang = "*"
sanitise-file-name = "*"
serde = { version = "*", features = ["derive"] }
serde_json = "*"
