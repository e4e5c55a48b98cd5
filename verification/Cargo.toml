[package]
name = "mflac_dec"
version = "0.2.0"
edition = "2021"
publish = false

[dependencies]
aes = "=0.8.4"
anyhow = "=1.0.104"
base64 = "=0.22.1"
cfb-mode = "=0.8.2"
clap = "=4.6.7"
md5 = "=0.7.0"
tc_tea = "=0.2.1"
