[package]
name = "whole_new_world"
version = "0.1.0"
edition = "2021"
publish = false

[dependencies]
bitvec = "1"
flate2 = "1"
directories = "*"
noise = "*"
