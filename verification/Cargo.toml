[package]
name = "dice_roller"
version = "0.1.0"
edition = "2021"
publish = false

[dependencies]
rand = "=0.10.3"
log = "=0.4.34"
pretty_env_logger = "=0.5.0"
teloxide = { version = "=0.17.0", features = ["webhooks-axum", "macros"] }
tokio = { version = "=1.53.2", features = ["macros", "rt-multi-thread"] }
takecell = "<0.1.2"
