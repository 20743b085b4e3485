[package]
name = "baijimu_digital_employee_connector"
version = "1.0.0"
edition = "2021"
publish = false

[dependencies]
anyhow = "1"
libc = "0.2"
rand = "0.8"
reqwest = { version = "0.12", default-features = false, features = ["blocking", "json"] }
semver = "1"
serde = { version = "1", features = ["derive"] }
serde_json = "1"
sha2 = "0.10"
