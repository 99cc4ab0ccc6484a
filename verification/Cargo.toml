[package]
name = "brokeamu"
version = "0.1.0"
edition = "2021"
publish = false

[dependencies]
serde_json = "=1.0.154"
quick-xml = "=0.38.4"
reqwest = { version = "=0.12.28", default-features = false, features = ["blocking", "rustls-tls"] }
winapi = { version = "=0.3.9", features = ["minwindef", "minwinbase", "processthreadsapi", "psapi", "winnt", "winuser", "handleapi", "tlhelp32"] }
