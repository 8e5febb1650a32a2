[package]
name = "runtime_finder"
version = "0.1.0"
edition = "2021"
publish = false

[dependencies]
dirs = "=7.0.0"
fancy-regex = "=0.20.0"
java-properties = "=2.0.0"
pep440_rs = "=0.3.12"
plist = "=1.10.3"
wait-timeout = "=0.2.1"
