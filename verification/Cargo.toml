[package]
name = "flezzle-rs"
version = "0.1.0"
edition = "2021"
publish = false

[dependencies]
bevy = { version = "=0.19.1", default-features = false, features = ["std", "bevy_sprite", "bevy_log"] }
avian2d = { version = "=0.7.0", default-features = false, features = ["2d", "f32", "parry-f32"] }
bevy_ecs_ldtk = { version = "=0.15.0", default-features = false, features = ["derive", "internal_levels"] }
serde = { version = "=1.0.229", features = ["derive"] }
serde_json = "=1.0.154"
js-sys = "0.3"
wasm-bindgen = "0.2"
web-sys = { version = "0.3", features = ["Window", "Location", "UrlSearchParams", "Document", "Element", "HtmlElement", "Node"] }
