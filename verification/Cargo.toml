[package]
name = "pitot"
version = "0.1.0"
edition = "2021"
publish = false

[dependencies]
libc = "*"
log = "*"
env_logger = "*"
inotify = "*"
icmp = "*"
serial = "*"
ws = "*"
serde = "*"
serde_json = "*"
serde_derive = "*"
i2cdev = "*"
i2cdev-bmp280 = "*"
i2csensors = "*"
