[package]
name = "unfurl"
version = "0.1.0"
edition = "2021"
publish = false

[dependencies]
deno_ast = "=0.48.2"
deno_config = "=0.61.0"
deno_graph = "=0.96.2"
deno_semver = "=0.10.1"
import_map = "=0.25.0"
node_resolver = "=0.49.0"
# held back so that the swc crates under deno_ast build
serde = "=1.0.219"
serde_json = "1"
url = "=2.5.8"
