[package]
name = "tree_edit"
version = "0.1.0"
edition = "2021"
publish = false

[dependencies]
tui = "0.19"
tui-textarea = "0.2"
