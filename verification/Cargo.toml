[package]
name = "autokernel"
version = "0.1.0"
edition = "2021"
publish = false

[dependencies]
anyhow = "*"
bitflags = "*"
clap = { version = "*", features = ["derive"] }
colored = "*"
itertools = "*"
libc = "*"
libloading = "*"
mlua = { version = "*", features = ["lua54", "vendored"] }
rusqlite = { version = "*", features = ["bundled"] }
serde = { version = "*", features = ["derive"] }
serde_json = "*"
tempdir = "*"
toml = "*"
uuid = { version = "*", features = ["v4"] }
