[package]
name = "note_pipeline"
version = "0.1.0"
edition = "2021"
publish = false

[dependencies]
slug = "*"
pulldown-cmark = "*"
serde_yaml = "*"
