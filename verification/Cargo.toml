[package]
name = "spoiler"
version = "0.1.0"
edition = "2021"

[dependencies]
byte-unit = "=4.0.19"
chrono = "=0.4.45"
colors-transform = "=0.2.11"
config = "=0.13.4"
crossterm = "=0.25.0"
dirs = "=4.0.0"
lava_torrent = "*"
math = "=0.11.0"
tokio = { version = "=1.53.2", features = ["full"] }
transmission-rpc = "=0.3.7"
tui = "=0.19.0"
tui-tree-widget = "=0.11.0"
unicode-width = "=0.1.14"
xdg = "=2.5.2"
