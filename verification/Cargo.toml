[package]
name = "achilles"
version = "0.1.0"
edition = "2021"
publish = false

[dependencies]
async-trait = "*"
bzip2-rs = "=0.1.2"
cms = "=0.2.3"
dataview = "=1.1.0"
dirs = "*"
flate2 = { version = "=1.1.10", default-features = false, features = ["rust_backend"] }
futures = "*"
goblin = "=0.10.7"
lz4_flex = "=0.14.0"
lzma-rs = "=0.3.0"
memchr = "=2.8.3"
pcap = "=2.5.0"
pelite = "=0.10.0"
plist = { version = "=1.10.3", features = ["enable_unstable_features_that_may_break_with_minor_version_bumps"] }
regex = "=1.13.1"
reqwest = { version = "=0.12.28", default-features = false, features = ["json", "rustls-tls"] }
ruzstd = "=0.9.1"
serde = { version = "1", features = ["derive"] }
serde_json = "=1.0.154"
sha2 = "=0.11.1"
sysinfo = "=0.40.1"
tokio = { version = "1", features = ["rt-multi-thread", "macros", "time", "sync", "process", "signal"] }
tokio-util = "*"
x509-cert = "=0.2.5"
zip = { version = "=7.4.0", default-features = false, features = ["deflate-flate2"] }
