[package]
name = "ultimate64"
version = "0.1.0"
edition = "2021"
publish = false

[dependencies]
anyhow = "*"
clap = { version = "*", features = ["derive", "env"] }
disasm6502 = "*"
image = "*"
log = "*"
parse_int = "*"
pretty_env_logger = "*"
prettytable-rs = "*"
reqwest = { version = "*", default-features = false, features = ["blocking", "multipart", "json"] }
serde = { version = "*", features = ["derive"] }
serde_json = "*"
socket2 = "*"
url = "*"
viuer = "*"
