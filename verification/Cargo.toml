[package]
name = "damage_sync"
version = "0.1.0"
edition = "2021"
publish = false

[dependencies]
embedded-graphics = "=0.6.2"
st7789 = "0.6"
display-interface-spi = "=0.4.1"
embedded-hal = "=0.2.7"
rppal = { version = "=0.22.1", features = ["hal"] }
bno055 = "=0.3.3"
circular-queue = "=0.2.7"
fine_grained = "=0.1.2"
