//! Dissolution storage: finite-field arithmetic and secret sharing.

pub mod gf_spec;
pub mod gf_bits;
pub mod gf_laws;
pub mod gf_pow3;
pub mod gf_poly;
pub mod galois;
pub mod gf_lagrange;
pub mod rs_codec;
pub mod crypto;
pub mod shard_layout;
pub mod recovery;
pub mod erasure;
pub mod device_identity;
pub mod dissolution;
pub mod block_hex;
pub mod block_manager;
pub mod backends;
