[package]
name = "talk_loco_client"
version = "0.1.0"
edition = "2021"
publish = false

[dependencies]
bson = "*"
futures = "*"
loco-protocol = "*"
nohash-hasher = "*"
parking_lot = "*"
tokio = { version = "*", features = ["rt", "sync"] }
