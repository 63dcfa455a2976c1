[package]
name = "turbo_static"
version = "0.1.0"
edition = "2021"
publish = false

[dependencies]
fjall = "=2.11.2"
lsp-server = "*"
lsp-types = "*"
serde = "*"
serde_json = "*"
serde_path_to_error = "*"
syn = { version = "=2.0.119", features = ["full", "visit"] }
proc-macro2 = { version = "*", features = ["span-locations"] }

[dev-dependencies]
tempfile = "*"
