[package]
name = "vaab_vm"
version = "0.1.0"
edition = "2021"
publish = false

[dependencies]
serde_json = "=1.0.154"
indexmap = "=2.14.2"
hmac = "=0.12.1"
sha2 = "=0.10.9"
hex = "=0.4.3"
sea-query = "=0.32.7"
redb = "=2.6.4"
rusqlite = { version = "=0.32.1", features = ["bundled"] }
ureq = "=2.12.1"
crossbeam-deque = "=0.8.8"
cranelift-codegen = "=0.133.3"
cranelift-frontend = "=0.133.3"
cranelift-jit = "=0.133.3"
cranelift-module = "=0.133.3"
cranelift-native = "=0.133.3"
