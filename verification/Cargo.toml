[package]
name = "commoncrawl"
version = "0.1.0"
edition = "2021"
publish = false

[dependencies]
async-compression = { version = "*", default-features = false, features = ["futures-io", "gzip"] }
futures = "*"
reqwest = { version = "*", default-features = false }

[dev-dependencies]
flate2 = "*"
