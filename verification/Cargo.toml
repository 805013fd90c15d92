[package]
name = "imp_orter"
version = "0.1.0"
edition = "2021"
publish = false

[dependencies]
zip = { version = "=9.1.0", default-features = false, features = ["deflate-flate2-zlib-rs"] }
rfd = { version = "=0.17.2", default-features = false, features = ["xdg-portal"] }
slint = { version = "=1.18.1", default-features = false, features = ["std", "compat-1-2"] }
