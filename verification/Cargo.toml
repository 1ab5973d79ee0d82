[package]
name = "vleue_navigator"
version = "0.1.0"
edition = "2021"
publish = false

[dependencies]
itertools = "=0.14.0"
polyanya = "=0.16.1"
log = "=0.4.35"
bevy = { version = "=0.17.3", default-features = false, features = ["std", "bevy_asset", "bevy_render", "bevy_log", "bevy_color", "bevy_gizmos", "multi_threaded"] }
