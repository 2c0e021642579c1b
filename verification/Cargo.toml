[package]
name = "lievisual"
version = "0.1.0"
edition = "2021"
publish = false

[dependencies]
png = "*"
kurbo = "*"
parley = "*"
skrifa = "*"
vello_cpu = "*"
