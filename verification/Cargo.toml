[package]
name = "zen_markdown"
version = "0.1.0"
edition = "2021"
publish = false

[dependencies]
pulldown-cmark = { version = "0.12", default-features = false }
eframe = { version = "0.30", default-features = false, features = ["glow", "default_fonts", "x11"] }
egui = "0.30"
rfd = "0.15"
objc2 = "0.6"
objc2-foundation = { version = "0.3", features = ["NSAppleEventDescriptor", "NSAppleEventManager", "NSURL", "NSString"] }
