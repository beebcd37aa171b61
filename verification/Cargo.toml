[package]
name = "propyarn"
version = "0.1.0"
edition = "2021"
publish = false

[dependencies]
proptest = "*"
