[package]
name = "rogue_core"
version = "0.1.0"
edition = "2021"

[dependencies]
bracket-random = "*"

[dev-dependencies]
bracket-pathfinding = "*"
