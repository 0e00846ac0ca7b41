[package]
name = "mca"
version = "0.1.0"
edition = "2021"
publish = false

[dependencies]
lz4-java-wrc = "=0.2.0"
miniz_oxide = "=0.9.1"
thiserror = "=2.0.21"
