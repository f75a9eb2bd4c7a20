[package]
name = "jrep"
version = "0.1.0"
edition = "2021"
publish = false

[dependencies]
regex = "1"
serde_json = "1"
clap = "4"
atty = "0.2"
term = "0.7"
exitcode = "1"
