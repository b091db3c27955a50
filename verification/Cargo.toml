[package]
name = "genre_graph"
version = "0.1.0"
edition = "2021"
publish = false

[dependencies]
anyhow = "*"
bzip2 = "*"
jiff = "*"
parse-wiki-text-2 = "*"
quick-xml = "*"
serde = { version = "*", features = ["derive"] }
serde_json = "*"
toml = "*"
