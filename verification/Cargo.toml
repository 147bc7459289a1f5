[package]
name = "paint_reconcile"
version = "0.1.0"
edition = "2021"
publish = false

[dependencies]
permutohedron = "*"
