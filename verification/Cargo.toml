[package]
name = "stow_core"
version = "0.1.0"
edition = "2021"
publish = false

[dependencies]
aws-config = { version = "1", default-features = false, features = ["behavior-version-latest", "rt-tokio", "rustls", "sso", "credentials-process"] }
aws-credential-types = "1"
aws-sdk-s3 = { version = "1", default-features = false, features = ["behavior-version-latest", "rt-tokio", "rustls"] }
aws-sdk-sts = { version = "1", default-features = false, features = ["behavior-version-latest", "rt-tokio", "rustls"] }
blake3 = { version = "1", features = ["pure"] }
dirs = "5"
libc = "0.2"
rusqlite = { version = "0.31", features = ["bundled"] }
serde = { version = "1", features = ["derive"] }
serde_json = "1"
thiserror = "1"
tokio = { version = "1", features = ["rt-multi-thread"] }
walkdir = "2"
zip = { version = "2", default-features = false, features = ["deflate"] }
