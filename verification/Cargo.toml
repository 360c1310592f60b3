[package]
name = "rusty_notes"
version = "0.1.0"
edition = "2021"
publish = false

[dependencies]
ttl_cache = "*"
time = { version = "0.3", features = ["formatting", "macros"] }
scraper = "*"
regex = "1"
syntect = { version = "5", default-features = false, features = ["default-fancy"] }
htmlescape = "0.3"
comrak = "*"
actix-web = "4"
actix-files = "0.6"
tera = "1"
serde = { version = "1", features = ["derive"] }
figment = { version = "0.10", features = ["env"] }
dotenv = "0.15"
env_logger = "*"
log = "0.4"
lazy_static = "1"
mime = "0.3"
walkdir = "2"
