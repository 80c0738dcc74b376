[package]
name = "voyager"
version = "0.1.0"
edition = "2021"
publish = false

[dependencies]
semver = "*"
sha2 = "*"
url = "*"
serde = { version = "*", features = ["derive"] }
serde_json = "*"
toml = "*"
indexmap = { version = "*", features = ["serde"] }
clap = { version = "*", features = ["derive", "env"] }
clap_complete = "*"
tokio = { version = "*", features = ["macros", "rt-multi-thread", "time"] }
futures = "*"
async-trait = "*"
reqwest = { version = "*", default-features = false, features = ["rustls-tls"] }
octocrab = "*"
thiserror = "*"
indicatif = "*"
console = "*"
cliclack = "*"
tracing = "*"
tracing-subscriber = "*"
dotenvy = "*"
