[package]
name = "pinocchio_vm"
version = "0.1.0"
edition = "2021"
publish = false

[dependencies]
rand = "0.8"
ark-ff = "0.3"
ark-relations = "0.3"
num-bigint = "0.4"
