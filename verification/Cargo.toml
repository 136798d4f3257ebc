[package]
name = "corpus_embed"
version = "0.1.0"
edition = "2021"
publish = false

[dependencies]
tiktoken-rs = "=0.12.1"
roxmltree = "=0.21.2"
voca_rs = "=1.15.2"
async-openai = { version = "=0.42.2", features = ["embedding"] }
clap = { version = "=4.6.7", default-features = false, features = ["derive", "std", "help", "usage", "error-context"] }
tokio = { version = "=1.54.1", features = ["rt-multi-thread", "macros", "time"] }
polars = { version = "=0.55.2", default-features = false, features = ["parquet", "fmt"] }
