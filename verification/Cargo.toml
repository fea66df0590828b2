[package]
name = "saltwater"
version = "0.1.0"
edition = "2021"
publish = false

[dependencies]
thiserror = "=1.0.69"
hexf-parse = "=0.2.1"
hexponent = "*"
cranelift = "=0.66.0"
cranelift-module = "=0.66.0"
cranelift-object = "=0.66.0"
target-lexicon = "=0.10.0"
