[package]
name = "spraycc"
version = "0.1.0"
edition = "2021"

[dependencies]
bincode = "1"
byteorder = "1"
bytes = "1"
clap = "2.33"
get_if_addrs = "0.5"
gethostname = "0.2"
home = "0.5"
priority-queue = "1"
rand = "0.8"
rlimit = "0.5"
serde = { version = "1", features = ["derive"] }
serde_json = "1"
simple-process-stats = "1"
tempdir = "0.3"
tempfile = "3"
tokio = { version = "1", features = ["full"] }
toml = "0.5"
ubyte = "0.10"
which = "4"
