[package]
name = "borink-object-storage-proto"
version = "0.1.0"
edition = "2021"
publish = false

[dependencies]
xmlparser = "=0.13.6"
ureq = { version = "3", default-features = false, features = ["rustls"] }
