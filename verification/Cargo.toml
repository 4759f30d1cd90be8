[package]
name = "yamc_transport"
version = "0.1.0"
edition = "2021"
publish = false

[dependencies]
bytemuck = { version = "=1.25.2", features = ["extern_crate_alloc"] }
rayon = "=1.12.0"
pollster = "=1.0.1"
cubecl = { version = "=0.11.3", default-features = false }
