[package]
name = "rl_core"
version = "0.1.0"
edition = "2021"
publish = false

[dependencies]
sha2 = "0.8"
rand = "0.7"
rand_xorshift = "0.2"
rand_distr = "0.2"
slotmap = "0.4"
smallvec = "1"
uuid = { version = "0.8", features = ["v4"] }
fxhash = "0.2"
