[package]
name = "libwild"
version = "0.1.0"
edition = "2021"
publish = false

[dependencies]
anyhow = "*"
atomic-take = "*"
bumpalo-herd = "*"
colosseum = "*"
crossbeam-utils = "*"
derive_more = { version = "*", features = ["full"] }
glob = "*"
hashbrown = "*"
itertools = "*"
libc = "*"
libloading = "*"
nix = { version = "*", features = ["resource", "process"] }
object = "*"
rayon = "*"
sharded-vec-writer = "*"
smallvec = "*"
tracing = "*"
tracing-subscriber = { version = "*", features = ["env-filter"] }
