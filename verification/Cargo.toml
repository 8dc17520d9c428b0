[package]
name = "spellman"
version = "0.1.0"
edition = "2021"
publish = false

[dependencies]
bytemuck = "=1.25.2"
clap = { version = "=4.6.7", features = ["derive", "env"] }
hf-hub = "=0.4.3"
lingua = { version = "1", default-features = false, features = ["arabic", "belarusian", "bulgarian", "chinese", "english", "french", "german", "hindi", "japanese", "kazakh", "macedonian", "mongolian", "portuguese", "russian", "serbian", "spanish", "ukrainian"] }
rayon = "=1.12.0"
serde = { version = "=1.0.229", features = ["derive"] }
serde_json = "=1.0.154"
snafu = "=0.8.9"
whichlang = "0.1"
