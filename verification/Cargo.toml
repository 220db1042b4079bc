[package]
name = "yamlette"
version = "0.1.0"
edition = "2021"
publish = false

[dependencies]
num = "*"
fraction = "*"
base91 = "*"
skimmer = "*"
