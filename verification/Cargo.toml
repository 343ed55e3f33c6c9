[package]
name = "cargo_deb"
version = "0.1.0"
edition = "2021"
publish = false

[dependencies]
ar = "0.8"
cargo_toml = "0.14"
getopts = "0.2"
glob = "0.3"
md5 = "0.7"
num_cpus = "1"
rayon = "1"
serde = "1"
serde_derive = "1"
serde_json = "1"
tar = { version = "0.4", default-features = false }
tempdir = "0.3"
toml = "0.5"
xz2 = "0.1"
zopfli = "0.4"
