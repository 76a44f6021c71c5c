[package]
name = "zip_extract"
version = "0.1.0"
edition = "2021"
publish = false

[dependencies]
anyhow = "=1.0.104"
argh = "=0.1.19"
chardetng = "=0.1.17"
encoding_rs = "=0.8.42"
filetime = "=0.2.29"
time = { version = "=0.3.55", features = ["formatting"] }
zip = { version = "=8.6.0", default-features = false, features = ["deflate"] }
