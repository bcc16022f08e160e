[package]
name = "qubit_state_machine"
version = "0.8.0"
edition = "2021"
publish = false

[dependencies]
qubit-atomic = "*"
qubit-cas = "0.12"
qubit-fast-cas = "0.3"
thiserror = "2"
