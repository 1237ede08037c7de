[package]
name = "struct_tree"
version = "0.1.0"
edition = "2021"
publish = false

[dependencies]
clap = { version = "4", features = ["derive"] }
colored = "2"
git2 = { version = "*", default-features = false }
regex = "1"
walkdir = "2"
