[package]
name = "ski_pass"
version = "0.1.0"
edition = "2021"
publish = false

[dependencies]
egg = "=0.9.5"
prost = "=0.11.9"
ordered-float = { version = "=3.9.2", features = ["serde"] }
parse-display = "=0.8.2"
serde = { version = "=1.0.229", features = ["derive"] }
libc = "=0.2.191"
ffi_utils = "=0.17.0"
skia-safe = "*"
strum_macros = "0.24"
