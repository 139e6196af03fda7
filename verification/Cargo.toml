[package]
name = "evo"
version = "0.1.0"
edition = "2021"
publish = false

[dependencies]
ron = "=0.12.3"
syn = { version = "=2.0.119", features = ["full", "visit", "parsing", "printing", "extra-traits"] }
quote = "=1.0.47"
proc-macro2 = "=1.0.107"
petgraph = "=0.8.3"
sha2 = "=0.11.1"
toml_edit = "=0.25.17"
ronin-core = "=0.1.0"
cargo_metadata = "=0.23.1"
walkdir = "=2.5.0"
tempfile = "=3.27.0"
serde = { version = "=1.0.229", features = ["derive"] }
thiserror = "=2.0.21"
notify = "=8.2.1"
eframe = { version = "=0.36.2", default-features = false, features = ["glow", "default_fonts", "x11"] }
egui-snarl = "=0.12.0"
