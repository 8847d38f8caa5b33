[package]
name = "ecies_poseidon"
version = "0.1.0"
edition = "2021"
publish = false

[dependencies]
snarkvm-algorithms = "*"
snarkvm-curves = "*"
snarkvm-fields = "*"
snarkvm-utilities = "*"
snarkvm-console-algorithms = "*"
snarkvm-console-types = "*"
snarkvm-console-network-environment = "*"
