[package]
name = "sshchat"
version = "0.1.0"
edition = "2021"
publish = false

[dependencies]
ratatui = { version = "=0.28.1", features = ["termion"] }
russh = "=0.64.1"
tokio = { version = "*", features = ["full"] }
anyhow = "*"
log = "*"
env_logger = "*"
thiserror = "*"
rand = "*"
tui-textarea = { version = "=0.6.1", features = ["termion"] }
