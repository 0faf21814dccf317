[package]
name = "conclave_room_serialize"
version = "0.1.0"
edition = "2021"
publish = false

[dependencies]
conclave-room = "*"
flood-rs = "*"
