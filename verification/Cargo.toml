[package]
name = "lifeguard"
version = "0.1.0"
edition = "2021"
publish = false

[dependencies]
ahash = "=0.8.12"
anyhow = "=1.0.104"
clap = { version = "=4.6.7", features = ["derive"] }
dashmap = "=6.2.1"
itertools = "=0.15.0"
petgraph = "=0.8.3"
postcard = { version = "=1.1.3", features = ["use-std"] }
rayon = "=1.12.0"
ruff_python_ast = "=0.0.7"
ruff_python_parser = "=0.0.7"
ruff_text_size = "=0.0.7"
serde = { version = "=1.0.229", features = ["derive"] }
serde_json = "=1.0.154"
starlark_map = "=0.14.2"
static_interner = "=0.1.3"

[dev-dependencies]
tempfile = "=3.27.0"
