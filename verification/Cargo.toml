[package]
name = "geomodel"
version = "0.1.0"
edition = "2021"
publish = false

[dependencies]
bytemuck = { version = "=1.25.2", features = ["derive"] }
uuid = { version = "=1.29.0", features = ["v4"] }
glam = { version = "=0.34.2", features = ["bytemuck"] }
gl = "=0.14.0"
tobj = "=4.0.5"
egui = "=0.33.3"
egui_sdl2_gl = { version = "=0.33.2", default-features = false }
sdl2 = { version = "=0.38.0", default-features = false }
rfd = { version = "=0.17.2", default-features = false, features = ["xdg-portal"] }
