[package]
name = "asof_join"
version = "0.1.0"
edition = "2021"
publish = false

[dependencies]
arrow = { version = "57", default-features = false }
futures = "0.3"
sqlparser = "0.59"
