//! The settlement message service's decisions: which requests it
//! catches, and how an engine's HTTP answer turns into a Fulfill or a
//! Reject.

use vstd::prelude::*;
use crate::addr::{addr_byte, addr_wf, Address};
use crate::ilp::{ErrorCode, Fulfill, Reject, CLASS_FINAL, CLASS_TEMPORARY};

verus! {

/// The reserved address settlement messages are sent to: `peer.settle`.
pub open spec fn se_address() -> Seq<u8> {
    seq![112u8, 101, 101, 114, 46, 115, 101, 116, 116, 108, 101]
}

/// Is the Prepare addressed to the settlement engine?
pub fn is_se_address(destination: &Address) -> (r: bool)
    ensures
        r == (destination@ == se_address()),
{
    let expected: Vec<u8> = vec![112u8, 101, 101, 114, 46, 115, 101, 116, 116, 108, 101];
    assert(expected@ =~= se_address());
    let bytes = destination.as_bytes();
    if bytes.len() != expected.len() {
        proof {
            assert(destination@.len() != se_address().len());
        }
        return false;
    }
    let mut i: usize = 0;
    while i < expected.len()
        invariant
            i <= expected@.len(),
            bytes@.len() == expected@.len(),
            bytes@ == destination@,
            expected@ == se_address(),
            forall|j: int| 0 <= j < i ==> bytes@[j] == expected@[j],
        decreases expected@.len() - i,
    {
        if bytes[i] != expected[i] {
            return false;
        }
        i = i + 1;
    }
    proof {
        assert(destination@ =~= se_address());
    }
    true
}

/// The settlement address is a well-formed ILP address.
proof fn lemma_se_address_wf()
    ensures
        addr_wf(se_address()),
{
    let s = se_address();
    assert forall|i: int| 0 <= i < s.len() implies addr_byte(#[trigger] s[i]) by {
        if i == 0 {
        } else if i == 1 {
        } else if i == 2 {
        } else if i == 3 {
        } else if i == 4 {
        } else if i == 5 {
        } else if i == 6 {
        } else if i == 7 {
        } else if i == 8 {
        } else if i == 9 {
        } else {
            assert(i == 10);
        }
    }
}

/// The decimal digits of a number, in ASCII.
pub open spec fn dec_digits(n: nat) -> Seq<u8>
    decreases n,
{
    if n < 10 {
        seq![(48 + n) as u8]
    } else {
        dec_digits(n / 10).push((48 + n % 10) as u8)
    }
}

/// The decimal digits of a status, computed at run time.
fn status_digits(n: u16) -> (r: Vec<u8>)
    ensures
        r@ == dec_digits(n as nat),
    decreases n,
{
    if n < 10 {
        let mut v: Vec<u8> = Vec::new();
        v.push(48 + n as u8);
        assert(v@ =~= dec_digits(n as nat));
        v
    } else {
        let mut v = status_digits(n / 10);
        v.push(48 + (n % 10) as u8);
        assert(v@ =~= dec_digits(n as nat));
        v
    }
}

/// The fixed words opening a settlement reject's message:
/// "Settlement engine rejected request with error code: ".
pub open spec fn engine_error_prefix() -> Seq<u8> {
    seq![
        83u8,
        101,
        116,
        116,
        108,
        101,
        109,
        101,
        110,
        116,
        32,
        101,
        110,
        103,
        105,
        110,
        101,
        32,
        114,
        101,
        106,
        101,
        99,
        116,
        101,
        100,
        32,
        114,
        101,
        113,
        117,
        101,
        115,
        116,
        32,
        119,
        105,
        116,
        104,
        32,
        101,
        114,
        114,
        111,
        114,
        32,
        99,
        111,
        100,
        101,
        58,
        32,
    ]
}

/// The message of a settlement reject: the fixed words, the numeric
/// status, then the engine's reason phrase when it gave one.
pub open spec fn engine_status_message(status: u16, reason: Seq<u8>) -> Seq<u8> {
    if reason.len() == 0 {
        engine_error_prefix() + dec_digits(status as nat)
    } else {
        engine_error_prefix() + dec_digits(status as nat) + seq![32u8] + reason
    }
}

/// A reject the settlement service sends on the engine's behalf: the
/// given code, triggered by the settlement address, with the engine's
/// status and reason phrase as the message.
fn settlement_reject(code: ErrorCode, status: u16, reason: &Vec<u8>) -> (r: Reject)
    ensures
        r.code == code,
        r.triggered_by matches Some(a) && a@ == se_address(),
        r.message@ == engine_status_message(status, reason@),
        r.data@ == Seq::<u8>::empty(),
{
    let address_bytes: Vec<u8> = vec![112u8, 101, 101, 114, 46, 115, 101, 116, 116, 108, 101];
    proof {
        assert(address_bytes@ =~= se_address());
        lemma_se_address_wf();
    }
    let triggered_by = match Address::try_from(address_bytes) {
        Ok(a) => Some(a),
        Err(_) => {
            proof {
                assert(false);
            }
            None
        },
    };
    let mut message: Vec<u8> = vec![
        83u8, 101, 116, 116, 108, 101, 109, 101, 110, 116, 32, 101, 110, 103, 105, 110, 101, 32,
        114, 101, 106, 101, 99, 116, 101, 100, 32, 114, 101, 113, 117, 101, 115, 116, 32, 119,
        105, 116, 104, 32, 101, 114, 114, 111, 114, 32, 99, 111, 100, 101, 58, 32,
    ];
    proof {
        assert(message@ =~= engine_error_prefix());
    }
    let digits = status_digits(status);
    message.extend_from_slice(digits.as_slice());
    if reason.len() > 0 {
        message.push(32u8);
        message.extend_from_slice(reason.as_slice());
        proof {
            assert(message@ =~= engine_error_prefix() + dec_digits(status as nat) + seq![32u8]
                + reason@);
        }
    } else {
        proof {
            assert(message@ =~= engine_error_prefix() + dec_digits(status as nat));
        }
    }
    Reject { code, triggered_by, message, data: Vec::new() }
}

/// Does the service catch the request? Only when the account has a
/// settlement engine and the Prepare is addressed to it.
pub fn should_handle_settlement_message(has_engine: bool, destination: &Address) -> (r: bool)
    ensures
        r == (has_engine && destination@ == se_address()),
{
    has_engine && is_se_address(destination)
}

/// Turns the engine's HTTP answer into the reply the peer gets: a
/// success status fulfills with the engine's body and an all-zero
/// fulfillment; a client error rejects finally; anything else rejects
/// temporarily. A reject is triggered by the settlement address and
/// carries the engine's status and reason phrase as its message.
pub fn classify_engine_response(status: u16, reason: &Vec<u8>, body: Vec<u8>) -> (r: Result<
    Fulfill,
    Reject,
>)
    ensures
        200 <= status < 300 ==> (r matches Ok(f) && f.fulfillment@ == Seq::<u8>::new(
            32,
            |i: int| 0u8,
        ) && f.data@ == body@),
        !(200 <= status < 300) && 400 <= status < 500 ==> (r matches Err(rj) && rj.code == (
        ErrorCode { b0: CLASS_FINAL, b1: 48, b2: 48 })),
        !(200 <= status < 300) && !(400 <= status < 500) ==> (r matches Err(rj) && rj.code == (
        ErrorCode { b0: CLASS_TEMPORARY, b1: 48, b2: 48 })),
        !(200 <= status < 300) ==> (r matches Err(rj) && (rj.triggered_by matches Some(a) && a@
            == se_address()) && rj.message@ == engine_status_message(status, reason@)),
{
    if 200 <= status && status < 300 {
        let mut fulfillment: Vec<u8> = Vec::new();
        let mut i: usize = 0;
        while i < 32
            invariant
                i <= 32,
                fulfillment@.len() == i,
                forall|j: int| 0 <= j < i ==> fulfillment@[j] == 0u8,
            decreases 32 - i,
        {
            fulfillment.push(0u8);
            i = i + 1;
        }
        proof {
            assert(fulfillment@ =~= Seq::<u8>::new(32, |i: int| 0u8));
        }
        Ok(Fulfill { fulfillment, data: body })
    } else if 400 <= status && status < 500 {
        Err(settlement_reject(ErrorCode::bad_request(), status, reason))
    } else {
        Err(settlement_reject(ErrorCode::internal_error(), status, reason))
    }
}

/// The authorization scheme prefix length of `Bearer `.
pub const BEARER_TOKEN_START: usize = 7;

/// The token of a bearer authorization header: what follows the
/// seven-byte scheme prefix, or nothing when the header is shorter.
pub fn bearer_token(auth_header: &Vec<u8>) -> (r: Option<Vec<u8>>)
    ensures
        auth_header@.len() < BEARER_TOKEN_START ==> r is None,
        auth_header@.len() >= BEARER_TOKEN_START ==> (r matches Some(t) && t@ == auth_header@.skip(
            BEARER_TOKEN_START as int,
        )),
{
    if auth_header.len() < BEARER_TOKEN_START {
        return None;
    }
    let mut out: Vec<u8> = Vec::new();
    let mut i: usize = BEARER_TOKEN_START;
    while i < auth_header.len()
        invariant
            BEARER_TOKEN_START <= i <= auth_header@.len(),
            out@ == auth_header@.subrange(BEARER_TOKEN_START as int, i as int),
        decreases auth_header@.len() - i,
    {
        out.push(auth_header[i]);
        assert(out@ =~= auth_header@.subrange(BEARER_TOKEN_START as int, i + 1));
        i = i + 1;
    }
    proof {
        assert(out@ =~= auth_header@.skip(BEARER_TOKEN_START as int));
    }
    Some(out)
}

} // verus!
