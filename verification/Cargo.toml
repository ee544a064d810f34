[package]
name = "one_word_story"
version = "0.1.0"
edition = "2021"
publish = false

[dependencies]
censor = "*"
serde = { version = "1", features = ["derive"] }
serde_json = "1"
serenity = "0.11"
tokio = { version = "1", features = ["macros", "rt-multi-thread"] }
