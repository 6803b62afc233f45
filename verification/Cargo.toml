[package]
name = "eyetrack"
version = "0.1.0"
edition = "2021"
publish = false

[dependencies]
burn = { version = "=0.19.1", default-features = false, features = ["dataset"] }
# The next four only switch on what `burn` needs of them: its own `std` feature
# would bring every backend.
burn-core = { version = "=0.19.1", default-features = false, features = ["std"] }
burn-nn = { version = "=0.19.1", default-features = false, features = ["std"] }
burn-optim = { version = "=0.19.1", default-features = false, features = ["std"] }
rand = { version = "=0.9.5", default-features = false, features = ["std", "os_rng"] }
circular-buffer = "=1.2.1"
env_logger = "=0.11.11"
histogram_equalization = "=0.2.4"
image = { version = "=0.25.6", default-features = false }
log = "=0.4.35"
urlencoding = "=2.1.3"
