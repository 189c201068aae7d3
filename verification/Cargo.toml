[package]
name = "lib_myfltk"
version = "0.1.0"
edition = "2021"
publish = false

[dependencies]
fltk = "*"
lib_utils = "*"
