[package]
name = "zws"
version = "0.1.0"
edition = "2021"
publish = false

[dependencies]
crossbeam = "0.7"
ctrlc = "3"
docopt = "1"
env_logger = "0.6"
log = "0.4"
notify = "4"
num_cpus = "1"
openssl = "0.10"
seahash = "3"
solicit = { version = "0.4", default-features = false }
