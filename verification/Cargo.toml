[package]
name = "bevy_query_service"
version = "0.1.0"
edition = "2021"
publish = false

[dependencies]
bevy_ecs = "0.15"
bevy_time = "0.15"
bevy-tokio-tasks = "0.15"
bevy_utils = "0.15"
uuid = "1"
