[package]
name = "rotfiles"
version = "0.1.0"
edition = "2021"
publish = false

[dependencies]
serde = { version = "1", features = ["derive"] }
serde_json = "1"
handlebars = "3"
chrono = "0.4"
path_abs = "0.5"
glob = "0.3"
structopt = "0.3"
subprocess = "0.2"
