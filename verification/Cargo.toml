[package]
name = "patterns"
version = "0.1.0"
edition = "2021"
publish = false

[dependencies]
anyhow = "1"
askama = "*"
fastembed = { version = "6.1.0", default-features = false }
hf-hub = { version = ">=0.4, <1", default-features = false, features = ["ureq"] }
lingua = { version = "1", default-features = false, features = ["english", "french", "german", "polish", "spanish"] }
ort = { version = "2.0.0-rc.10", default-features = false, features = ["std", "ndarray", "load-dynamic"] }
proc-macro2 = "1"
quote = "1"
reqwest = { version = "0.12", default-features = false, features = ["rustls-tls"] }
schemars = "1"
serde = { version = "1", features = ["derive"] }
serde_json = "1"
sha2 = "0.10"
shell-words = "1"
syn = { version = "2", features = ["full", "extra-traits"] }
tokenizers = { version = "*", default-features = false, features = ["onig"] }
tokio = { version = "1", features = ["rt-multi-thread", "macros", "process", "sync", "time"] }
