[package]
name = "common_lib"
version = "0.1.0"
edition = "2021"
publish = false

[dependencies]
embassy-time = { version = "=0.5.1", features = ["std"] }
embassy-sync = "=0.8.0"
embassy-futures = "=0.1.2"
embassy-executor = { version = "=0.9.1", features = ["arch-std", "executor-thread"] }
embedded-hal = "=1.0.0"
heapless = "=0.9.3"
thiserror = "=2.0.21"
log = "=0.4.34"
embassy-nrf = { version = "*", features = ["nrf52833"] }
assign-resources = "*"
defmt = "*"
