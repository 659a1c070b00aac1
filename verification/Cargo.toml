[package]
name = "lookup_circuit"
version = "0.1.0"
edition = "2021"
publish = false

[dependencies]
once_cell = "1"
snarkvm-algorithms = { version = "=0.8.0", default-features = false, features = ["crypto_hash", "hash_to_curve"] }
snarkvm-curves = { version = "=0.8.0", default-features = false }
snarkvm-fields = { version = "=0.8.0", default-features = false }
snarkvm-utilities = { version = "=0.8.0", default-features = false, features = ["derive", "std"] }
