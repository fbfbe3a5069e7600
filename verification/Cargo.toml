[package]
name = "simple_game_utils"
version = "0.1.0"
edition = "2021"
publish = false

[dependencies]
ici-files = "*"
gilrs = "*"
audio-engine = "*"
directories = "*"
serde = { version = "*", features = ["derive"] }
serde_json = "*"
log = "*"
hound = "*"
thiserror = "*"
