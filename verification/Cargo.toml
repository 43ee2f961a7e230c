[package]
name = "vora_recon"
version = "2.0.0"
edition = "2021"
publish = false

[dependencies]
chrono = { version = "=0.4.45", features = ["serde"] }
clap = { version = "=4.6.7", features = ["derive"] }
dashmap = "=6.2.1"
dns-lookup = "=2.1.1"
pnet = "=0.35.0"
ratatui = "=0.29.0"
regex = "=1.13.1"
serde = { version = "=1.0.229", features = ["derive"] }
serde_json = "=1.0.154"
socket2 = { version = "=0.5.10", features = ["all"] }
unicode-segmentation = "=1.13.3"
unicode-truncate = "=2.0.1"
unicode-width = "=0.2.0"
ureq = { version = "=2.12.1", features = ["json"] }
winapi = { version = "=0.3.9", features = ["handleapi", "iphlpapi", "netioapi", "processthreadsapi", "psapi", "shellapi", "tcpmib", "udpmib", "wincon", "winnt", "winuser", "ws2def"] }
