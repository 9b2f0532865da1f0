[package]
name = "macropinna_remote"
version = "0.1.0"
edition = "2021"
publish = false

[dependencies]
directories = "*"
env_logger = "*"
futures = "*"
get_if_addrs = "*"
hmac = "=0.12.1"
jwt = "=0.16.0"
log = "*"
rcgen = "*"
serde = { version = "*", features = ["derive"] }
serde_json = "*"
sha2 = "=0.10.9"
tfc = { version = "*", features = ["ascii-fallback"] }
tokio = { version = "*", features = ["macros", "rt-multi-thread", "sync", "time"] }
uuid = { version = "=1.27.0", features = ["v4", "serde"] }
warp = { version = "*", features = ["tls"] }
wmctrl = "*"
