[package]
name = "rerun_loader_mcap"
version = "0.1.0"
edition = "2021"
publish = false

[dependencies]
mcap = "=0.26.0"
cdr = "=0.2.4"
zstd = "=0.14.3"
ros2-interfaces-humble = { version = "=0.0.1", features = ["sensor_msgs"] }
colorgrad = "=0.9.0"
libyuv = "=1.0.0"
memmap2 = "=0.9.12"
thiserror = "=2.0.21"
log = "=0.4.35"
anyhow = "=1.0.104"
argh = "=0.1.19"
ctrlc = "=3.5.2"
rustdds = "=0.11.1"
