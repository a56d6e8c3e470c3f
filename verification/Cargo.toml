[package]
name = "yarrow_core"
version = "0.1.0"
edition = "2021"
publish = false

[dependencies]
target-lexicon = "=0.13.5"
cranelift-codegen = { version = "=0.133.3", features = ["x86", "arm64"] }
