[package]
name = "hft_pipeline"
version = "0.1.0"
edition = "2021"
publish = false

[dependencies]
bytemuck = { version = "=1.25.2", features = ["derive"] }
clap = { version = "=4.6.7", default-features = false, features = ["std", "help", "usage", "error-context", "derive", "env"] }
iceoryx2 = { version = "0.8", default-features = false, features = ["std", "libc_platform"] }
reqwest = { version = "=0.12.28", default-features = false }
tokio = { version = "=1.54.1", default-features = false, features = ["rt-multi-thread", "macros", "net", "io-util", "sync", "time"] }
tracing = { version = "0.1", default-features = false, features = ["std"] }
tracing-subscriber = { version = "0.3", default-features = false, features = ["env-filter", "fmt", "std"] }
zenoh = { version = "=1.10.2", default-features = false, features = ["transport_tcp"] }
