[package]
name = "rtxlink"
version = "0.1.0"
edition = "2021"
publish = false

[dependencies]
byteorder = "1"
crc16 = "*"
serialport = { version = "4", default-features = false }
text-colorizer = "1"
chrono = "0.4"
url = "2"
thread-control = "*"
ymodem = "*"
