[package]
name = "rebpf"
version = "0.1.0"
edition = "2021"
publish = false

[dependencies]
argh = "=0.1.19"
env_logger = { version = "=0.11.11", default-features = false }
eyre = "=0.6.14"
hickory-proto = "=0.26.3"
iced = { version = "=0.14.0", default-features = false, features = ["tokio", "svg", "advanced", "tiny-skia", "x11"] }
iced_aw = { version = "=0.14.1", default-features = false, features = ["drop_down"] }
iced_core = "=0.14.0"
ipnet = "=2.12.2"
libc = "=0.2.191"
log = "=0.4.35"
netlink-bindings = { version = "=0.3.5", features = ["nftables", "rt-addr", "rt-link", "rt-route", "rt-rule"] }
netlink-socket2 = "=0.3.5"
rand = "=0.10.3"
regex-automata = "=0.4.18"
regex-syntax = "=0.8.11"
rust-fuzzy-search = "=0.1.1"
serde = { version = "=1.0.229", features = ["derive"] }
serde_json = "=1.0.154"
tokio = { version = "=1.54.1", features = ["macros", "net", "rt", "signal", "sync", "time"] }
zbus = { version = "=5.19.0", default-features = false, features = ["tokio"] }
zbus_polkit = { version = "=5.1.0", default-features = false }
