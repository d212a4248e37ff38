[package]
name = "termdraw"
version = "0.1.0"
edition = "2021"
publish = false

[dependencies]
ascii_assets = "=0.2.1"
common-stdx = "*"
crossterm = "=0.29.0"
crossbeam-channel = "=0.5.17"
flume = "=0.11.1"
log = "=0.4.35"
env_logger = "=0.11.11"
once_cell = "=1.21.4"
rand = "0.8"
thiserror = "=2.0.21"
dyn-clone = "=1.0.20"
