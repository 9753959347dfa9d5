[package]
name = "dyntracing"
version = "0.1.0"
edition = "2021"
publish = false

[dependencies]
handlebars = "3"
clap = "2"
env_logger = "0.6"
log = "0.4"
