[package]
name = "app_menu"
version = "0.1.0"
edition = "2021"
publish = false

[dependencies]
backtrace = "*"
freedesktop-desktop-entry = "*"
image = "*"
log = "*"
log_err = "*"
notify = "*"
resvg = "*"
simple_logger = "*"
sys-locale = "*"
systemd-journal-logger = "*"
thread-id = "*"
tiny-skia = "*"
tokio = { version = "*", features = ["macros", "rt-multi-thread"] }
usvg = "*"
zbus = "*"
