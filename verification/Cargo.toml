[package]
name = "sdr_pipeline"
version = "0.1.0"
edition = "2021"
publish = false

[dependencies]
alsa = "*"
bitvec = "=1.1.1"
cpal = "=0.18.2"
dirs = "=7.0.0"
hound = "=3.5.1"
libhackrf = "=0.1.1"
num = "=0.4.3"
num-complex = "=0.4.6"
num-traits = "=0.2.19"
