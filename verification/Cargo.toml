[package]
name = "cp_sat_bridge"
version = "0.1.0"
edition = "2021"
publish = false

[dependencies]
cp_sat = "=0.4.1"
