[package]
name = "ontology"
version = "0.1.0"
edition = "2021"
publish = false

[dependencies]
anyhow = "1"
chrono = { version = "0.4", features = ["serde"] }
clap = { version = "4", features = ["derive"] }
codespan-reporting = "0.11"
colored = "*"
convert_case = "0.6"
csv = "1"
glob = "0.3"
nonempty = { version = "*", features = ["serialize"] }
petgraph = "*"
regex = "1"
serde = { version = "1", features = ["derive"] }
serde_with = "3"
serde_yaml = "0.9"
thiserror = "*"
tracing = "0.1"
tracing-subscriber = "0.3"
url = { version = "2", features = ["serde"] }
