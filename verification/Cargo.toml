[package]
name = "excel_to_csv"
version = "0.1.0"
edition = "2021"
publish = false

[dependencies]
calamine = "=0.36.1"
clap = "=2.34.0"
slog = "=2.8.2"
