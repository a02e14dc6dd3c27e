//! Verified sender core for the STREAM transport protocol on Interledger.
//!
//! The library packetizes a payment into conditional-transfer packets,
//! encrypts and authenticates them under a shared secret, enforces a
//! minimum delivered amount per packet, adapts the in-flight amount via
//! congestion control, and terminates with a receipt.

use vstd::prelude::*;

pub mod addr;
pub mod congestion;
pub mod crypto;
pub mod ilp;
pub mod oer;
pub mod payment;
pub mod rate;
pub mod retry;
pub mod routing;
pub mod sender;
pub mod settle;
pub mod store;
pub mod stream_packet;

verus! {

/// A fresh copy of a byte vector.
pub fn copy_bytes(v: &Vec<u8>) -> (r: Vec<u8>)
    ensures
        r@ == v@,
{
    let mut out: Vec<u8> = Vec::new();
    let mut i: usize = 0;
    while i < v.len()
        invariant
            i <= v@.len(),
            out@ == v@.take(i as int),
        decreases v@.len() - i,
    {
        out.push(v[i]);
        assert(out@ =~= v@.take(i + 1));
        i = i + 1;
    }
    assert(v@.take(v@.len() as int) =~= v@);
    out
}

/// Errors surfaced to the caller of a payment.
#[derive(Debug, Clone, PartialEq, Eq)]
pub enum Error {
    /// A final or unrecognized reject code terminated the payment.
    /// When a reject caused it, its code and message ride along.
    SendMoneyError {
        /// What went wrong, in words.
        message: String,
        /// The code of the reject that ended the payment, when one did.
        reject_code: Option<crate::ilp::ErrorCode>,
        /// The message bytes of that reject.
        reject_message: Vec<u8>,
    },
    /// Too long a time has passed since the last fulfilled packet.
    TimeoutError {
        /// What went wrong, in words.
        message: String,
    },
}

} // verus!
