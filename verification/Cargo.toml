[package]
name = "xdg_trash"
version = "0.1.0"
edition = "2021"
publish = false

[dependencies]
chrono = "0.4"
urlencoding = "2"
sha2 = "0.10"
anyhow = "1"
clap = { version = "4", features = ["derive"] }
colored = "2"
humansize = "2"
fs_extra = "1"
libc = "0.2"
log = "0.4"
microlog = "*"
thiserror = "1"
displaydoc = "0.2"
