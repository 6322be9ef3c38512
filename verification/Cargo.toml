[package]
name = "random_number_over_serial"
version = "0.1.0"
edition = "2021"
publish = false

[dependencies]
rp-pico = "=0.9.0"
usb-device = "=0.3.2"
usbd-serial = "=0.2.2"
panic-halt = "=1.0.0"
cortex-m-rt = "=0.7.7"
