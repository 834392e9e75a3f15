[package]
name = "openrailsrs-formats"
version = "0.1.0"
edition = "2021"
publish = false

[dependencies]
encoding_rs = "0.8"
flate2 = "1"
thiserror = "2"
