[package]
name = "iron_abacus"
version = "0.1.0"
edition = "2021"
publish = false

[dependencies]
rust_decimal = "=1.43.0"
comfy-table = "=7.2.2"
dioxus = { version = "=0.6.3", default-features = false, features = ["macro", "html", "signals", "hooks", "router", "document"] }
dioxus-free-icons = { version = "=0.9.0", features = ["lucide"] }
