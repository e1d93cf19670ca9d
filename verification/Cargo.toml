[package]
name = "js_strings"
version = "0.1.0"
edition = "2021"
publish = false

[dependencies]
boa_profiler = "0.16"
unicode-normalization = "0.1"
