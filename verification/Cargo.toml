[package]
name = "bse"
version = "0.1.0"
edition = "2021"
publish = false

[dependencies]
regex = "1"
textwrap = "*"
deunicode = "*"
md5 = "*"
serde = { version = "1", features = ["derive"] }
serde_json = "1"
toml = "*"
libm = "*"
clap = { version = "4", features = ["derive"] }
clap_complete = "4"
