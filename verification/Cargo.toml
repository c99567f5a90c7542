[package]
name = "stylex"
version = "0.1.0"
edition = "2021"
publish = false

[dependencies]
serde_json = { version = "=1.0.154", features = ["preserve_order"] }
serde = { version = "=1.0.229", features = ["derive"] }
blake3 = "=1.8.7"
thiserror = "=2.0.21"
oxc_ast = "=0.146.0"
oxc_ast_visit = "=0.146.0"
oxc_span = "=0.146.0"
oxc_str = "=0.146.0"
oxc_syntax = "=0.146.0"

[dev-dependencies]
oxc_allocator = "=0.146.0"
oxc_parser = "=0.146.0"
oxc_semantic = "=0.146.0"
