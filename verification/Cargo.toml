[package]
name = "ie_r"
version = "0.1.0"
edition = "2021"
publish = false

[dependencies]
anyhow = "1"
image = { version = "0.25", default-features = false }
indexmap = { version = "2", features = ["serde"] }
serde = { version = "1", features = ["derive"] }
toml_edit = { version = "0.22", features = ["serde"] }
wayland-client = "0.31"
wayland-protocols-wlr = { version = "0.3", features = ["client"] }
calloop = { version = "0.14", features = ["signals"] }
calloop-wayland-source = "0.4"
global-hotkey = "0.6"
libc = "0.2"
open = "5"
tokio = { version = "1", features = ["rt-multi-thread", "time", "process", "io-util", "macros"] }
zbus = "5"
ashpd = { version = "0.10", default-features = false, features = ["tokio"] }
