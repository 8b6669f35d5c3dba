[package]
name = "notedmd"
version = "0.1.0"
edition = "2021"
publish = false

[dependencies]
anyhow = "*"
async-trait = "*"
base64 = "*"
clap = { version = "*", features = ["derive", "env"] }
colored = "*"
comrak = "*"
dialoguer = "*"
directories = "*"
dirs = "*"
image = "*"
indicatif = "*"
pdf2image = "*"
reqwest = { version = "*", default-features = false, features = ["json", "rustls-tls"] }
serde = { version = "*", features = ["derive"] }
serde_json = "*"
tempfile = "*"
thiserror = "*"
tokio = { version = "*", features = ["macros", "rt-multi-thread"] }
toml = "*"
