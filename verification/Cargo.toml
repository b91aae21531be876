[package]
name = "preduce"
version = "0.1.0"
edition = "2021"
publish = false

[dependencies]
blake2 = "0.10"
fixedbitset = "*"
is_executable = "1"
regex = "1"
either = "1"
serde = { version = "1", features = ["derive"] }
serde_derive = "1"
serde_json = "1"
clap = "2"
ctrlc = "3"
tempdir = "0.3"
num_cpus = "1"
libc = "0.2"
histo = "*"
lazy_static = "1"
git2 = { version = "*", default-features = false }
