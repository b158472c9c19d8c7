[package]
name = "multi_stage_planner"
version = "0.1.0"
edition = "2021"
publish = false

[dependencies]
indexmap = "2"
itertools = "0.10"
