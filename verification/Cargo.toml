[package]
name = "rysql"
version = "0.6.0"
edition = "2021"
publish = false

[dependencies]
chrono = { version = "=0.4.45", default-features = false, features = ["now"] }
directories = "=6.0.0"
eframe = { version = "=0.34.3", default-features = false, features = ["glow", "x11"] }
egui_dock = { version = "=0.19.1", default-features = false }
egui_extras = { version = "=0.34.3", default-features = false }
keyring = { version = "=3.6.3", default-features = false }
serde = { version = "1", features = ["derive"] }
serde_json = "=1.0.154"
sqlformat = "=0.5.0"
sqlx = { version = "=0.9.0", default-features = false, features = ["runtime-tokio", "mysql"] }
syntect = { version = "=5.3.0", default-features = false, features = ["default-fancy"] }
thiserror = "=2.0.21"
tokio = { version = "=1.54.1", features = ["rt-multi-thread", "sync"] }
toml = "=1.1.8"
tracing = "=0.1.44"
tracing-appender = "=0.2.5"
tracing-subscriber = { version = "=0.3.23", default-features = false, features = ["std", "fmt", "env-filter", "registry"] }
