[package]
name = "stalwart_jmap"
version = "0.1.0"
edition = "2021"
publish = false

[dependencies]
roaring = "*"
mail-parser = "0.8"
lz4_flex = "*"
serde = { version = "1", features = ["derive"] }
bincode = "1.3"
tokio = { version = "1", features = ["rt", "sync", "net", "time"] }
