[package]
name = "vaultwarden-operator"
version = "0.1.0"
edition = "2021"
publish = false

[dependencies]
aes = "=0.8.4"
anyhow = "=1.0.104"
argon2 = "=0.5.3"
base64 = "=0.22.1"
cbc = { version = "=0.1.2", features = ["alloc"] }
chrono = "=0.4.45"
futures = "=0.3.34"
gethostname = "=1.1.0"
hkdf = "=0.12.4"
hmac = "=0.12.1"
k8s-openapi = { version = "=0.27.1", features = ["latest"] }
kube = { version = "=3.1.0", features = ["runtime", "derive", "client", "unstable-runtime"] }
kube-leader-election = "=0.43.0"
pbkdf2 = { version = "=0.12.2", features = ["hmac"] }
pkcs8 = "=0.10.2"
reqwest = { version = "=0.12.28", default-features = false, features = ["json", "rustls-tls"] }
rsa = "=0.9.10"
schemars = "=1.2.3"
serde = { version = "=1.0.229", features = ["derive"] }
serde_json = "=1.0.154"
serde_yaml = "=0.9.34"
sha1 = "=0.10.7"
sha2 = "=0.10.9"
subtle = "=2.6.1"
thiserror = "=2.0.21"
tokio = { version = "=1.54.1", features = ["rt-multi-thread", "macros", "net", "io-util", "time", "signal", "sync"] }
tracing = "=0.1.44"
tracing-subscriber = { version = "=0.3.23", features = ["env-filter"] }
uuid = { version = "=1.29.0", features = ["v4"] }

[dev-dependencies]
rand = "=0.8.8"
