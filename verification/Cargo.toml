[package]
name = "sembazuru_agent"
version = "0.1.0"
edition = "2021"
publish = false

[dependencies]
async-stream = "=0.3.6"
blake3 = "=1.8.7"
cap-std = "=3.4.6"
getrandom = "=0.3.4"
hyper-util = { version = "=0.1.21", features = ["tokio"] }
serde = { version = "=1.0.229", features = ["derive"] }
tokio = { version = "=1.54.1", features = ["full"] }
tokio-stream = "=0.1.19"
tokio-util = { version = "=0.7.20", features = ["rt"] }
toml = "=0.8.23"
tonic = "=0.12.3"
tower = { version = "=0.5.3", features = ["util"] }
windows-service = "=0.7.0"
windows-sys = { version = "=0.59.0", features = ["Win32_Foundation", "Win32_Security", "Win32_Security_Authorization", "Win32_Security_Cryptography", "Win32_Storage_FileSystem", "Win32_System_Diagnostics_ToolHelp", "Win32_System_Environment", "Win32_System_IO", "Win32_System_JobObjects", "Win32_System_Pipes", "Win32_System_Threading"] }
