[package]
name = "tmux-cmc"
version = "0.1.0"
edition = "2021"
publish = false

[dependencies]
oneshot = { version = "=0.1.13", default-features = false, features = ["std"] }
rustix = { version = "=1.1.6", features = ["pty", "termios"] }
thiserror = "=2.0.21"
