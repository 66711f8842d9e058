[package]
name = "sketchgames"
version = "0.1.0"
edition = "2021"
publish = false

[dependencies]
strsim = "=0.10.0"
priority-queue = "=1.4.0"
rand = "=0.8.8"
base64 = "=0.21.7"
sqids = "=0.4.2"
serde = { version = "=1.0.229", features = ["derive"] }
serde_json = "=1.0.154"
clap = { version = "=4.6.7", features = ["derive"] }
tokio = { version = "=1.54.1", features = ["full"] }
warp = { version = "=0.3.7", features = ["tls"] }
futures = "=0.3.34"
chrono = "=0.4.45"
uuid = { version = "=1.29.1", features = ["v4"] }
walkdir = "=2.5.0"
async-mutex = "=1.4.1"
actix-web = "=3.3.3"
rusqlite = { version = "=0.30.0", features = ["bundled"] }
tokio-rusqlite = "=0.5.0"
reqwest = { version = "=0.11.27", default-features = false, features = ["json"] }
handlebars = "=4.5.0"
serenity = "=0.10.10"
