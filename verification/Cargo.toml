[package]
name = "vecnod_core"
version = "0.1.0"
edition = "2021"
publish = false

[dependencies]
async-trait = "*"
borsh = "*"
futures = "0.3"
once_cell = "*"
parking_lot = "*"
separator = "*"
serde = { version = "1", features = ["derive"] }
thiserror = "*"
tokio = { version = "1", features = ["rt-multi-thread", "sync", "macros", "time"] }
