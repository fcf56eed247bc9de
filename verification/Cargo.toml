[package]
name = "lanzaboote"
version = "0.1.0"
edition = "2021"
publish = false

[dependencies]
goblin = "*"
sha2 = "0.10"
base32ct = "*"
fastrand = "2"
time = "0.3"
serde_json = "1"
serde = { version = "1", features = ["derive"] }
anyhow = "1"
clap = { version = "4", features = ["derive"] }
log = "0.4"
stderrlog = "0.6"
tempfile = "3"
walkdir = "2"
bootspec = "*"
nix = { version = "0.29", features = ["fs"] }
indoc = "2"
