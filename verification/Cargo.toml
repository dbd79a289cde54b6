[package]
name = "arkwors_garaga"
version = "0.1.0"
edition = "2021"
publish = false

[dependencies]
ark-ec = "*"
ark-ff = "*"
ark-groth16 = "*"
num-bigint = "*"
