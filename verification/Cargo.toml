[package]
name = "bbclient"
version = "0.1.0"
edition = "2021"
publish = false

[dependencies]
failure = "*"
fasthash = "*"
indicatif = "*"
lazy_static = "*"
lru = "*"
maplit = "*"
redis = "*"
scroll = "*"
structopt = "*"
strum = "*"
strum_macros = "*"
tabwriter = "*"
zydis = "*"
