[package]
name = "file_downloader"
version = "0.1.0"
edition = "2021"

[dependencies]
sha2 = "0.10"
