[package]
name = "courier"
version = "0.1.0"
edition = "2021"
publish = false

[dependencies]
actix-cors = "*"
actix-web = { version = "4", default-features = false, features = ["macros"] }
chrono = { version = "0.4", features = ["serde"] }
env_logger = "*"
log = "0.4"
open = "*"
parking_lot = "0.12"
psutil = "3"
reqwest = { version = "0.12", default-features = false, features = ["blocking", "json"] }
serde = { version = "1", features = ["derive"] }
serde_json = "1"
structopt = "0.3"
url = "2"
uuid = { version = "1", features = ["v4", "serde"] }

[dev-dependencies]
rand = "0.8"
