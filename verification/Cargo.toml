[package]
name = "hpp_editor"
version = "0.1.0"
edition = "2021"
publish = false

[dependencies]
anyhow = "=1.0.104"
asefile = "=0.3.8"
color-backtrace = "0.7"
eframe = { version = "=0.31.1", default-features = false, features = ["glow", "default_fonts", "x11"] }
egui = { version = "=0.31.1", default-features = false }
egui-notify = "=0.19.0"
egui_dock = { version = "=0.16.0", default-features = false }
egui_extras = { version = "=0.31.1", default-features = false }
egui_ltreeview = "=0.2.0"
flexi_logger = { version = "0.31", default-features = false }
image = { version = "=0.24.9", default-features = false, features = ["png"] }
log = "=0.4.34"
rfd = { version = "=0.15.4", default-features = false, features = ["xdg-portal", "tokio"] }
serde = { version = "=1.0.229", features = ["derive"] }
serde_json = "=1.0.154"
thiserror = "=2.0.21"
uuid = { version = "=1.29.0", features = ["v4"] }
zip = { version = "=9.1.0", default-features = false, features = ["deflate"] }
