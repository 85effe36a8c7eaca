[package]
name = "back_me_up"
version = "0.1.0"
edition = "2021"
publish = false

[dependencies]
serde = { version = "*", features = ["derive"] }
serde_json = "*"
notify = "*"
glob = "*"
openssh = "*"
openssh-sftp-client = { version = "*", features = ["openssh"] }
tokio = { version = "*", features = ["rt-multi-thread", "macros", "time"] }
futures = "*"
