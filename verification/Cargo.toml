[package]
name = "noirc_evaluator"
version = "0.1.0"
edition = "2021"
publish = false

[dependencies]
acvm = "=1.0.0"
fxhash = "=0.2.1"
im = "=15.1.0"
