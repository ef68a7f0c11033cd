[package]
name = "rigtest"
version = "0.4.0"
edition = "2021"
publish = false

[dependencies]
anyhow = "1"
chrono = "0.4"
clap = { version = "4", features = ["derive"] }
console = "*"
futures = "0.3"
gethostname = "*"
indicatif = "*"
libc = "0.2"
linkme = "0.3"
openssh = "*"
proc-macro2 = "1"
quick-junit = "*"
quote = "1"
rand = "0.10"
rand_chacha = "0.10"
reqwest = { version = "*", default-features = false }
serde_json = "1"
syn = { version = "2", features = ["full"] }
tokio = { version = "1", features = ["full"] }
