[package]
name = "fistbump_wallet"
version = "0.1.0"
edition = "2021"
publish = false

[dependencies]
bech32 = "0.11"
bs58 = "0.5"
btleplug = "0.11"
dirs = "6"
futures = "0.3"
hex = "0.4"
hidapi = { version = "2", default-features = false, features = ["linux-native-basic-udev"] }
interprocess = "2"
jni = "0.21"
libc = "0.2"
open = "5"
rcgen = { version = "0.13", features = ["x509-parser"] }
reqwest = { version = "0.12", default-features = false, features = ["blocking", "json"] }
ring = "0.17"
rustls = { version = "0.23", default-features = false, features = ["ring", "std", "tls12"] }
serde = { version = "1", features = ["derive"] }
serde_json = "1"
sha2 = "0.10"
time = "0.3"
tokio = { version = "1", features = ["rt", "time", "sync"] }
url = "2"
uuid = "1"
webpki-roots = "0.26"
winreg = "0.55"
x509-parser = "0.16"
