[package]
name = "kiln"
version = "0.1.0"
edition = "2021"
publish = false

[dependencies]
aes-gcm = "0.10"
argon2 = { version = "0.5", features = ["std"] }
aya = "0.13"
caps = "0.5"
clap = { version = "4", features = ["derive"] }
ed25519-dalek = { version = "2", features = ["rand_core"] }
flate2 = "1"
hex = "0.4"
libc = "0.2"
nix = { version = "0.29", features = ["fs", "hostname", "mount", "process", "sched", "signal", "term", "user"] }
rand = "0.8"
rustls = { version = "0.23", default-features = false, features = ["logging", "ring", "std", "tls12"] }
rustls-pemfile = "2"
seccompiler = "0.4"
serde = { version = "1", features = ["derive"] }
serde_json = "1"
sha2 = "0.10"
tar = "0.4"
tempfile = "3"
thiserror = "1"
ureq = { version = "2", features = ["json"] }
walkdir = "2"
