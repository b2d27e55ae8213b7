[package]
name = "backupd"
version = "0.1.0"
edition = "2021"
publish = false

[dependencies]
notify = "4"
scheduled-thread-pool = "0.2"
