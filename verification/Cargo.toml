[package]
name = "jot"
version = "0.1.0"
edition = "2021"
publish = false

[dependencies]
slug = "*"
clap = { version = "*", features = ["derive", "env"] }
directories = "*"
edit = "*"
miette = { version = "*", features = ["fancy"] }
owo-colors = "*"
rprompt = "*"
tempfile = "*"
thiserror = "*"
