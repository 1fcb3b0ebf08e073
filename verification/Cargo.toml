[package]
name = "hibou_label"
version = "0.1.0"
edition = "2021"
publish = false

[dependencies]
graph_process_manager_core = "=0.1.10"
