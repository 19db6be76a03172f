[package]
name = "egui_cosmic_text"
version = "0.1.0"
edition = "2021"
publish = false

[dependencies]
cosmic-text = "*"
egui = "*"
etagere = "*"
lru = "*"
cosmic_undo_2 = "*"
