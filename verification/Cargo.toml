[package]
name = "wisp"
version = "0.1.0"
edition = "2021"
publish = false

[dependencies]
avian3d = { version = "=0.5.0", default-features = false, features = ["3d", "f32", "parry-f32"] }
bevy = { version = "=0.18.1", default-features = false, features = ["std", "bevy_log", "bevy_asset"] }
bevy_common_assets = { version = "0.15", default-features = false, features = ["ron"] }
bevy_enhanced_input = { version = "0.22", default-features = false }
serde = { version = "1", features = ["derive"] }
serde_json = "=1.0.154"
