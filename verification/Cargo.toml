[package]
name = "tree_buf"
version = "0.1.0"
edition = "2021"
publish = false

[dependencies]
rayon = "1"
zigzag = "*"
gibbon = "*"
num-traits = "0.2"
defer = "*"
zfp-sys-cc = "*"
syn = "1"
quote = "1"
proc-macro2 = "1"
Inflector = "0.11"
