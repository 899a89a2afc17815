[package]
name = "sector_proofs"
version = "0.1.0"
edition = "2021"
publish = false

[dependencies]
sha2 = "=0.10.9"
blstrs = "=0.6.2"
halo2_proofs = "=0.2.0"
anyhow = "1"
chrono = { version = "0.4", features = ["serde"] }
serde = { version = "1", features = ["derive"] }
async-std = "1"
raw-cpuid = "*"
heim = { version = "0.1.0-rc.1", features = ["host", "memory", "cpu"] }
