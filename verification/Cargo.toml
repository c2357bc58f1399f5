[package]
name = "gitjournal"
version = "0.1.0"
edition = "2021"
publish = false

[dependencies]
chrono = { version = "0.4", default-features = false, features = ["std", "clock"] }
clap = "*"
git2 = { version = "*", default-features = false }
log = "0.4"
nom = { version = "4", features = ["regexp"] }
rayon = "1"
regex = "1"
serde = { version = "1", features = ["derive"] }
term = "*"
toml = "*"
