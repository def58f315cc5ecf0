[package]
name = "x32osc"
version = "0.1.0"
edition = "2021"
publish = false

[dependencies]
anyhow = "=1.0.104"
nom = "=7.1.3"
pid = "=4.0.0"
rosc = "=0.10.1"
tokio = { version = "=1.54.1", features = ["macros", "net", "rt-multi-thread", "sync"] }
