[package]
name = "log_viewer"
version = "0.1.0"
edition = "2021"
publish = false

[dependencies]
eframe = { version = "=0.37.0", default-features = false, features = ["default_fonts", "glow", "x11"] }
egui = "=0.37.0"
egui-async = "=0.8.0"
egui_plot = "=0.38.0"
rfd = { version = "=0.17.2", default-features = false, features = ["xdg-portal"] }
tokio = { version = "=1.54.1", features = ["sync"] }
reqwest = { version = "=0.13.5", default-features = false }
serde = { version = "=1.0.229", features = ["derive"] }
serde_json = "=1.0.154"
