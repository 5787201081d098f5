[package]
name = "rui"
version = "0.1.0"
edition = "2021"
publish = false

[dependencies]
regex = "=1.13.1"
generational-indextree = "=1.1.4"
bumpalo = "=3.20.3"
druid-shell = "=0.7.0"
piet = "=0.3.1"
nom = "=7.1.3"
notify = "=4.0.18"
once_cell = "=1.21.4"
tracing = "=0.1.44"
thiserror = "=1.0.69"
syn = { version = "=1.0.109", features = ["full"] }
quote = "=1.0.47"
