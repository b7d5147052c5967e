[package]
name = "monopoly"
version = "0.1.0"
edition = "2021"
publish = false

[dependencies]
rand = "0.8"
bevy_ecs = "*"
tracing = "0.1"
tracing-appender = "0.2"
tracing-subscriber = "0.3"
