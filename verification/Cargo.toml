[package]
name = "excel_import"
version = "0.1.0"
edition = "2021"

[dependencies]
calamine = "*"
csv = "*"
