[package]
name = "piwfs"
version = "0.2.2"
edition = "2021"
publish = false

[dependencies]
alsa = "0.5"
clap = "2"
hound = "3"
nix = "0.20"
signal-hook = "0.3"

[dev-dependencies]
rand = "0.8"
