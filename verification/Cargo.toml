[package]
name = "underskrift"
version = "0.1.0"
edition = "2021"
publish = false

[dependencies]
const-oid = { version = "=0.9.6", features = ["db"] }
der = { version = "=0.7.10", features = ["alloc"] }
x509-cert = "=0.2.5"
lopdf = { version = "=0.46.0", default-features = false }
serde_json = "=1.0.154"
hex = "=0.4.3"
uppsala = "=0.12.0"
image = { version = "=0.25.10", default-features = false, features = ["jpeg", "png"] }
