[package]
name = "stake_election"
version = "0.1.0"
edition = "2021"
publish = false

[dependencies]
frame-election-provider-support = "=39.0.1"
frame-support = "=39.1.0"
frame-system = "=39.1.0"
log = "=0.4.34"
pallet-election-provider-multi-phase = "=38.2.0"
pallet-nomination-pools = "=37.0.2"
pallet-session = "=39.0.0"
pallet-staking = "=39.1.0"
pallet-timestamp = "=38.0.0"
sp-core = "=35.0.0"
sp-npos-elections = "=35.1.0"
sp-runtime = "=40.1.0"
sp-staking = "=37.0.0"
