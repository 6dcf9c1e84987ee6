[package]
name = "query_dag"
version = "0.1.0"
edition = "2021"
publish = false

[dependencies]
petgraph = "0.6"
prql-compiler = "0.4"
xxhash-rust = { version = "0.8", features = ["xxh3"] }
