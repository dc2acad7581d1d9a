[package]
name = "mcstatus"
version = "0.1.0"
edition = "2021"
publish = false

[dependencies]
anyhow = "*"
clap = { version = "*", features = ["derive"] }
console = "*"
dialoguer = "*"
dirs-next = "*"
indicatif = "*"
textwrap = "*"
thiserror = "*"
tokio = { version = "*", features = ["macros", "rt", "signal", "time", "net", "io-util"] }
