[package]
name = "multisig_contract"
version = "0.1.0"
edition = "2021"
publish = false

[dependencies]
bls12_381-bls = { version = "=0.6.0", default-features = false, features = ["rkyv-impl"] }
# The next two are named by no file here. They come in with the BLS crate and
# are held to the last patches that build with the compiler this crate is
# built with: dusk-bytes 0.1.8 and derive-hex 0.1.3 ask for rustc 1.96.
dusk-bytes = "=0.1.7"
derive-hex = "=0.1.2"
rkyv = { version = "=0.7.46", default-features = false, features = ["size_32", "alloc", "validation"] }
bytecheck = { version = "=0.6.12", default-features = false }

[dev-dependencies]
rand = "=0.8.8"
