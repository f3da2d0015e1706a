[package]
name = "duckdb_turbovec"
version = "0.2.0"
edition = "2021"
publish = false

[dependencies]
duckdb = { version = "*", features = ["vtab-arrow", "vtab-loadable", "loadable-extension"] }
turbovec = "*"
matrixmultiply = "*"
