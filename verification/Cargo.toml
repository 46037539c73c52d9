[package]
name = "ncore"
version = "0.1.0"
edition = "2021"
publish = false

[dependencies]
elf = "=0.7.4"
rustix = { version = "1", features = ["event", "system", "time", "std"] }
libc = "0.2"
jni = "0.22"
log = "0.4"
env_logger = "0.11"
android-logd-logger = "*"
thiserror = "2"
