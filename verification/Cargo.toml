[package]
name = "educe_core"
version = "0.1.0"
edition = "2021"
publish = false

[dependencies]
syn = { version = "=0.15.44", default-features = false, features = ["derive", "parsing", "printing", "clone-impls"] }
quote = { version = "=0.6.13", default-features = false }
proc-macro2 = { version = "=0.4.30", default-features = false }
