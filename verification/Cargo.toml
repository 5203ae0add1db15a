[package]
name = "wl-pick"
version = "0.1.0"
edition = "2021"
publish = false

[dependencies]
cosmic-text = "*"
memmap2 = "*"
rustix = { version = "*", features = ["event", "fs"] }
swayipc = "*"
wayland-client = "*"
wayland-protocols = { version = "*", features = ["client", "staging", "unstable"] }
wayland-protocols-wlr = { version = "*", features = ["client"] }
