[package]
name = "tokio-timerd"
version = "0.3.3"
edition = "2021"
publish = false

[dependencies]
slab = "0.4"
futures-core = "0.3"
libc = "0.2"
timerfd = "1"
tokio = { version = "1", features = ["net", "rt", "time"] }
windows-sys = { version = "0.59", features = ["Win32_Foundation", "Win32_System_Threading"] }
