[package]
name = "trex"
version = "0.1.0"
edition = "2021"
publish = false

[dependencies]
blake3 = { version = "1", features = ["pure"] }
object = "*"
defmt = "*"
anyhow = "1"
clap = { version = "4", features = ["derive"] }
clap-num = "*"
console = "*"
indicatif = "*"
defmt-decoder = "*"
tokio = { version = "1", features = ["rt-multi-thread", "macros", "net", "io-util", "time"] }
