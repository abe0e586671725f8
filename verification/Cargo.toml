[package]
name = "libgpiod"
version = "0.1.0"
edition = "2021"
publish = false

[dependencies]
errno = "0.3"
intmap = "3"
thiserror = "1"

[dev-dependencies]
libc = "0.2"
