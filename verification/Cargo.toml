[package]
name = "cfti"
version = "0.1.0"
edition = "2021"
publish = false

[dependencies]
systemd-parser = "*"
rust-ini = "*"
daggy = "*"
regex = "1"
json = "*"
bus = "*"
runny = "*"
clap = "2"
ctrlc = "3"
termcolor = "1"
