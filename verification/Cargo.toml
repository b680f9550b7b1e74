[package]
name = "graph_node"
version = "0.1.0"
edition = "2021"
publish = false

[dependencies]
diesel = { version = "=1.4.8", features = ["postgres", "serde_json"] }
ethereum-types = "=0.4.2"
futures = "=0.1.31"
graphql-parser = "=0.2.3"
hyper = { version = "=0.12.36", default-features = false }
serde = { version = "=1.0.229", features = ["derive"] }
serde_json = "=1.0.154"
slog = "=2.8.2"
tokio = "=0.1.22"
uuid = { version = "=1.29.0", features = ["v4"] }
