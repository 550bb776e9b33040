[package]
name = "twitchmotes"
version = "0.1.0"
edition = "2021"
publish = false

[dependencies]
anyhow = "=1.0.104"
futures = "=0.3.34"
reqwest = { version = "=0.11.27", default-features = false }
serde = { version = "=1.0.229", features = ["derive"] }
tokio = { version = "=1.53.2", features = ["macros", "rt-multi-thread"] }
toml = "=0.8.23"
twitch_api2 = { version = "=0.6.1", features = ["helix", "reqwest"] }
twitch_oauth2 = { version = "=0.6.1", features = ["reqwest_client"] }
