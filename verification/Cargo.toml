[package]
name = "etac"
version = "0.1.0"
edition = "2021"
publish = false

[dependencies]
ariadne = "*"
clap = { version = "*", features = ["derive"] }
logos = "*"
pretty = "*"
lalrpop-util = "*"
crossbeam-skiplist = "*"
dashmap = "*"
elsa = "*"
smallvec = "*"
