[package]
name = "userdirs"
version = "0.1.0"
edition = "2021"
publish = false

[dependencies]
rand = "0.8"
actix-web = { version = "4", default-features = false, features = ["macros"] }
actix-files = "0.6"
anyhow = "1"
ldap3 = { version = "0.11", default-features = false }
tokio = { version = "1", features = ["macros", "rt-multi-thread"] }
trust-dns-resolver = "0.23"
