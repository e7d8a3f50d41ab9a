[package]
name = "commando"
version = "0.1.0"
edition = "2021"
publish = false

[dependencies]
regex = "=1.13.1"
crossbeam = "=0.8.5"
itertools = "=0.15.0"
log = "=0.4.34"
xkbcommon = "=0.9.0"
xcb = { version = "=0.10.1", features = ["thread"] }
xcb-util = { version = "=0.4.0", features = ["keysyms"] }
x11 = { version = "=2.21.0", features = ["xlib"] }
structopt = "=0.3.26"
clap-verbosity-flag = "=0.3.2"
env_logger = "=0.11.11"
json5 = "=1.3.3"
serde = { version = "=1.0.229", features = ["derive"] }
