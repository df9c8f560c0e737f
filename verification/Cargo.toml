[package]
name = "diplomacygm"
version = "0.1.0"
edition = "2021"
publish = false

[dependencies]
geo-types = "0.7"
geos = { version = "*", features = ["geo"] }
poise = "0.6"
quick-xml = "0.37"
rand = "0.9"
regex = "1"
serde_json = "1"
serenity = "0.12"
tokio = { version = "1", features = ["macros", "rt-multi-thread"] }
tracing = "0.1"
tracing-subscriber = "0.3"
zip = { version = "2", default-features = false, features = ["deflate"] }
