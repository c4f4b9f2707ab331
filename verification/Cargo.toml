[package]
name = "cubecl-opt"
version = "0.3.0"
edition = "2021"
publish = false

[dependencies]
petgraph = "=0.6.5"
rspirv = "=0.12.0"
cubecl-runtime = "=0.3.0"
