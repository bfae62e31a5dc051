[package]
name = "centaur_wiki"
version = "0.1.0"
edition = "2021"
publish = false

[dependencies]
axum = { version = "0.8", default-features = false, features = ["json", "query", "http1", "tokio"] }
reqwest = { version = "0.13", default-features = false, features = ["json", "rustls"] }
serde = { version = "1", features = ["derive"] }
serde_json = "1"
similar = "2"
sqlx = { version = "0.8", default-features = false, features = ["postgres", "runtime-tokio", "time"] }
time = { version = "0.3", features = ["formatting", "parsing"] }
tower-http = { version = "0.6", features = ["cors"] }
