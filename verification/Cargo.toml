[package]
name = "sound_packs"
version = "0.1.0"
edition = "2021"
publish = false

[dependencies]
minreq = "*"
progress_bar = "*"
