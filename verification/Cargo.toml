[package]
name = "karbeat_core"
version = "0.1.0"
edition = "2021"
publish = false

[dependencies]
anyhow = "1"
cpal = "*"
hashbrown = "*"
hound = "*"
log = "*"
rtrb = "*"
serde = { version = "1", features = ["derive"] }
slab = "*"
smallvec = "*"
thiserror = "*"
