[package]
name = "patch_xml"
version = "0.1.0"
edition = "2021"
publish = false

[dependencies]
regex = "=1.13.1"
xmltree = { version = "=0.10.3", features = ["attribute-order"] }
serde_yaml = "=0.8.26"
itertools = "=0.10.5"
serde = { version = "=1.0.229", features = ["derive"] }
serde-xml-rs = "=0.5.1"
