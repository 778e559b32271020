//! WebSocket frame masking utilities
//!
//! The random bytes come from `fastrand`, a fast generator that is not
//! cryptographic.
use crate::octets;
use vstd::prelude::*;

pub use crate::simd::{apply_mask, apply_mask_offset};

verus! {

/// `fastrand::u32` over its whole range: any number may come back.
#[verifier::external_body]
fn random_u32() -> u32 {
    fastrand::u32(..)
}

/// `fastrand::Rng::fill`, on a generator forked from the thread's own: any
/// bytes may come back. The fork keeps the bytes, which are public, apart from
/// the sequence that masks frames.
#[verifier::external_body]
fn random_bytes16() -> [u8; 16] {
    let mut bytes = [0u8; 16];
    fastrand::Rng::new().fill(&mut bytes);
    bytes
}

/// The mask that a number stands for.
pub fn mask_from_u32(n: u32) -> (r: [u8; 4])
    ensures
        r@ == octets::be_bytes(n as nat, 4),
{
    let r: [u8; 4] = [
        (n / 256 / 256 / 256 % 256) as u8,
        (n / 256 / 256 % 256) as u8,
        (n / 256 % 256) as u8,
        (n % 256) as u8,
    ];
    proof {
        reveal_with_fuel(octets::be_bytes, 5);
        assert(r@ =~= octets::be_bytes(n as nat, 4));
    }
    r
}

/// Generate a random mask for WebSocket client frames.
pub fn generate_mask() -> (r: [u8; 4])
    ensures
        exists|n: u32| r@ == #[trigger] octets::be_bytes(n as nat, 4),
{
    mask_from_u32(random_u32())
}

/// Generate the 16 random bytes used by a WebSocket handshake key.
pub(crate) fn generate_key_bytes() -> [u8; 16] {
    random_bytes16()
}

} // verus!
