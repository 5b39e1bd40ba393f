[package]
name = "finance_metrics"
version = "0.1.0"
edition = "2021"
publish = false

[dependencies]
chrono = { version = "0.4", default-features = false, features = ["std"] }
leptos = "=0.8.22"
leptos_meta = "=0.8.7"
leptos_router = "=0.8.17"
serde = { version = "=1.0.229", features = ["derive"] }
