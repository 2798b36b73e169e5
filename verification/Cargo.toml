[package]
name = "varn-vm"
version = "0.1.0"
edition = "2021"
publish = false

[dependencies]
num-bigint = "*"
num-traits = "*"
bigdecimal = "*"
ryu = "*"
serde = "*"
serde_json = "*"
