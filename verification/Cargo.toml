[package]
name = "csv_to_postgresql"
version = "0.1.0"
edition = "2021"
publish = false

[dependencies]
csv = "*"
postgres = "*"
clap = "*"
rpassword = "*"
spmc = "*"
walkdir = "*"
