[package]
name = "kolom"
version = "1.0.0"
edition = "2021"
publish = false
rust-version = "1.95"

[dependencies]
unicode-normalization = "=0.1.26"
cranelift-codegen = "=0.130.2"
cranelift-frontend = "=0.130.2"
cranelift-module = "=0.130.2"
cranelift-object = "=0.130.2"
target-lexicon = "=0.13.5"
crossterm = "=0.29.0"
