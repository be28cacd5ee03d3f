[package]
name = "ftzz"
version = "0.1.0"
edition = "2021"
publish = false

[dependencies]
anyhow = "1"
clap = { version = "4", features = ["derive"] }
clap-num = "*"
exitcode = "*"
num-format = "0.4"
rand = "0.8"
rand_distr = "0.4"
rand_xorshift = "0.3"
tokio = { version = "1", features = ["rt-multi-thread"] }
