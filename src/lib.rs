//! Verified core of a peer-to-peer benchmark that lets a group learn the
//! per-key average of its members' private inputs by additive secret
//! sharing, without anyone learning anyone else's input.
//!
//! - `arith`: 64-bit wrapping arithmetic and the sums behind the masking.
//! - `frame`: fixed-width share chunks and share blobs.
//! - `order`: byte order of keys.
//! - `sharing`: masking, partial sums and the leader's aggregation.
//! - `keys`: identities, fingerprints and the RSA operations.
//! - `envelope`: sealing and opening share blobs.
//! - `roster`, `keyed`: who takes part, and tables indexed by identity.
//! - `node`: the phase machine of one participant.
pub mod arith;
pub mod error;
pub mod frame;
pub mod order;
pub mod sharing;
pub mod keys;
pub mod envelope;
pub mod roster;
pub mod keyed;
pub mod node;
