[package]
name = "hex_invaders"
version = "0.1.0"
edition = "2021"
publish = false

[dependencies]
rand = "0.8"
tokio = { version = "1", features = ["rt-multi-thread", "io-std", "io-util", "macros", "signal", "sync", "time"] }
termios = "0.3"
terminal_size = "*"
ctrlc = "3"
