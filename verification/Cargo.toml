[package]
name = "node_agent"
version = "0.1.0"
edition = "2021"
publish = false

[dependencies]
actix-web = "*"
actix-web-httpauth = "*"
async-std = "*"
chrono = "*"
dotenvy = "*"
flexi_logger = "*"
log = "*"
num_cpus = "*"
serde_json = "*"
sysinfo = "*"
