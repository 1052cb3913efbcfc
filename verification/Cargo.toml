[package]
name = "deferred_logger"
version = "0.1.0"
edition = "2021"
publish = false

[dependencies]
cobs = "=0.2.3"
object = "=0.23.0"
postform_decoder = "=0.3.0"
probe-rs = "=0.10.1"
probe-rs-rtt = "=0.10.1"
structopt = "=0.3.26"
termion = "=1.5.6"
thiserror = "=1.0.69"
ctrlc = "=3.5.2"
color-eyre = "=0.5.11"
