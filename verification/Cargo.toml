[package]
name = "jude_web"
version = "0.1.0"
edition = "2021"
publish = false

[dependencies]
rustc-serialize = "0.3"
sodiumoxide = "*"
cookie = { version = "*", features = ["private", "key-expansion", "percent-encode"] }
mustache = "*"
iron = "*"
router = "*"
logger = "*"
lazy_static = "*"
log = "*"
env_logger = "*"
