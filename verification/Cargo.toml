[package]
name = "flamegraph_stacks"
version = "0.1.0"
edition = "2021"
publish = false

[dependencies]
inferno = { version = "*", default-features = false }
