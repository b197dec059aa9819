[package]
name = "portfolio_rebalancer"
version = "0.1.0"
edition = "2021"
publish = false

[dependencies]
anyhow = "*"
futures = "*"
polars = { version = "*", default-features = false }
rust-gecko = "*"
tokio = { version = "*", features = ["rt-multi-thread", "macros"] }
yahoo_finance_api = "*"
