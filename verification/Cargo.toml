[package]
name = "feed_history"
version = "0.1.0"
edition = "2021"
publish = false

[dependencies]
feed-rs = "*"
surf = "*"
gtk = "*"
gio = "*"
glib = "*"
webkit2gtk = "*"
relm = "*"
relm-derive = "*"
