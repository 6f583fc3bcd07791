[package]
name = "darkpool"
version = "0.1.0"
edition = "2021"
publish = false

[dependencies]
anchor-lang = { version = "0.32", features = ["init-if-needed"] }
anchor-spl = { version = "0.32", default-features = false, features = ["token", "token_2022"] }
arcium-anchor = { version = "0.4.0", default-features = false }
bytemuck = "1"
