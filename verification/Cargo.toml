[package]
name = "precompiles"
version = "0.1.0"
edition = "2021"
publish = false

[dependencies]
jni = "=0.21.1"
num-bigint = "0.4"

[dev-dependencies]
ethabi = "=18.0.0"
