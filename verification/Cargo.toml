[package]
name = "mygrep"
version = "0.1.0"
edition = "2021"
publish = false

[dependencies]
regex = "1"
rayon = "1"
tokio = { version = "1", features = ["rt-multi-thread", "fs", "sync"] }
clap = { version = "4", features = ["derive"] }
serde = { version = "1", default-features = false, features = ["derive"] }
postcard = "1"
rand = { version = "0.8", features = ["small_rng"] }
log = "0.4"
simple-logging = "*"
color-eyre = "0.6"
tracing-subscriber = "0.3"
cortex-m = "0.7"
cortex-m-rt = "0.7"
cortex-m-semihosting = "0.5"
tudelft-arm-qemu-runner = "*"
tudelft-lm3s6965-pac = "*"
