[package]
name = "benchmark_tracker"
version = "0.1.0"
edition = "2021"
publish = false

[dependencies]
image = { version = "=0.25.10", default-features = false, features = ["jpeg", "png"] }
libc = "=0.2.191"
ndarray = "=0.16.1"
num_threads = "=0.1.8"
ort = { version = "=2.0.0-rc.9", default-features = false, features = ["ndarray", "cuda", "load-dynamic"] }
ort-sys = { version = "=2.0.0-rc.9", default-features = false }
thiserror = "=2.0.21"
