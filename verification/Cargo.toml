[package]
name = "toolpath_table"
version = "0.1.0"
edition = "2021"
publish = false

[dependencies]
polars = { version = "*", default-features = false, features = ["partition_by"] }
prost = "*"
pyo3 = "*"
pyo3-polars = "*"
