[package]
name = "debank_trace"
version = "0.1.0"
edition = "2021"
publish = false

[dependencies]
alloy-consensus = { version = "2", default-features = false, features = ["std"] }
alloy-eips = { version = "2", default-features = false, features = ["std"] }
alloy-genesis = { version = "2", default-features = false, features = ["std"] }
alloy-network = { version = "2", default-features = false }
alloy-primitives = { version = "1", default-features = false, features = ["std"] }
alloy-rlp = { version = "0.3", features = ["derive"] }
alloy-rpc-types-eth = { version = "2", default-features = false, features = ["std", "serde"] }
async-trait = "0.1"
futures = { version = "0.3", default-features = false, features = ["std", "async-await"] }
md5 = "0.8"
op-alloy-consensus = { version = "*", default-features = false, features = ["std"] }
op-alloy-rpc-types = { version = "*", default-features = false, features = ["std"] }
reth-primitives-traits = { version = "*", default-features = false, features = ["std"] }
revm = { version = "*", default-features = false, features = ["std"] }
revm-bytecode = { version = "*", default-features = false, features = ["std"] }
revm-inspectors = { version = "*", default-features = false }
serde = { version = "1", features = ["derive"] }
sha1 = "0.10"
