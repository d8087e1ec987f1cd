[package]
name = "upstream_seed"
version = "0.1.0"
edition = "2021"
publish = false

[dependencies]
anyhow = "*"
async-trait = "*"
directories = "*"
librad = "*"
serde = { version = "*", features = ["derive"] }
structopt = "*"
thiserror = "*"
tokio = { version = "*", features = ["rt-multi-thread", "sync", "macros", "time"] }
tracing = "*"
tracing-subscriber = { version = "*", features = ["env-filter", "fmt", "json"] }
