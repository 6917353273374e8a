[package]
name = "dhall_typegen"
version = "0.1.0"
edition = "2021"
publish = false

[dependencies]
convert_case = "=0.12.0"
ordered-float = "=5.5.0"
path-slash = "=0.2.1"
pathdiff = "=0.2.3"
proc-macro2 = "=1.0.107"
quote = "=1.0.47"
serde = "=1.0.229"
serde_dhall = "=0.13.0"
syn = { version = "=3.0.6", features = ["full"] }
