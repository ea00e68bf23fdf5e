[package]
name = "vnet_router"
version = "0.1.0"
edition = "2021"
publish = false

[dependencies]
async-trait = "0.1"
ifaces = "*"
ipnet = "2"
log = "0.4"
tokio = { version = "1", features = ["macros", "rt", "sync", "time"] }
