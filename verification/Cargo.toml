[package]
name = "edge_data_exfil"
version = "0.1.0"
edition = "2021"
publish = false

[dependencies]
regex = "1"
luhn = "*"
percentage = "*"
rand = "0.7"
log = "0.4"
log-fastly = "*"
fastly = "*"
