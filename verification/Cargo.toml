[package]
name = "ecs_lib_rs"
version = "0.1.0"
edition = "2021"
publish = false
