//! The three ILP packet kinds of a conditional transfer — Prepare,
//! Fulfill and Reject — and the three-letter reject codes with their
//! classes.

use vstd::prelude::*;
use crate::addr::{addr_wf, Address};
use crate::oer::{
    be_enc,
    be_val,
    dec_var,
    enc_var,
    lemma_be_enc_val,
    lemma_be_len_u64,
    lemma_dec_enc_var,
    lemma_enc_len_len,
    lemma_subrange_split,
    read_fixed,
    read_var,
    write_var,
    push_be,
};
use vstd::arithmetic::power::pow;

verus! {

/// ASCII 'F': the class byte of final errors.
pub const CLASS_FINAL: u8 = 70;

/// ASCII 'T': the class byte of temporary errors.
pub const CLASS_TEMPORARY: u8 = 84;

/// ASCII 'R': the class byte of relative errors.
pub const CLASS_RELATIVE: u8 = 82;

/// The class of a reject code.
#[derive(Debug, Clone, Copy, PartialEq, Eq, Structural)]
pub enum ErrorClass {
    Final,
    Temporary,
    Relative,
    Unknown,
}

/// A three-character ILP reject code such as `F00` or `T04`.
#[derive(Debug, Clone, Copy, PartialEq, Eq, Structural)]
pub struct ErrorCode {
    /// The class letter.
    pub b0: u8,
    /// The first digit.
    pub b1: u8,
    /// The second digit.
    pub b2: u8,
}

/// The class a class byte stands for.
pub open spec fn class_of(code: ErrorCode) -> ErrorClass {
    if code.b0 == CLASS_FINAL {
        ErrorClass::Final
    } else if code.b0 == CLASS_TEMPORARY {
        ErrorClass::Temporary
    } else if code.b0 == CLASS_RELATIVE {
        ErrorClass::Relative
    } else {
        ErrorClass::Unknown
    }
}

/// Is this the amount-too-large code `F08`?
pub open spec fn is_amount_too_large(code: ErrorCode) -> bool {
    code.b0 == CLASS_FINAL && code.b1 == 48 && code.b2 == 56
}

/// Is this the application-error code `F99`?
pub open spec fn is_application_error(code: ErrorCode) -> bool {
    code.b0 == CLASS_FINAL && code.b1 == 57 && code.b2 == 57
}

impl ErrorCode {
    /// A code from its three ASCII bytes.
    pub fn new(b0: u8, b1: u8, b2: u8) -> (r: ErrorCode)
        ensures
            r == (ErrorCode { b0, b1, b2 }),
    {
        ErrorCode { b0, b1, b2 }
    }

    /// The final `F00` bad-request code.
    pub fn bad_request() -> (r: ErrorCode)
        ensures
            r == (ErrorCode { b0: CLASS_FINAL, b1: 48, b2: 48 }),
    {
        ErrorCode { b0: CLASS_FINAL, b1: 48, b2: 48 }
    }

    /// The final `F08` amount-too-large code.
    pub fn amount_too_large() -> (r: ErrorCode)
        ensures
            r == (ErrorCode { b0: CLASS_FINAL, b1: 48, b2: 56 }),
            is_amount_too_large(r),
    {
        ErrorCode { b0: CLASS_FINAL, b1: 48, b2: 56 }
    }

    /// The final `F99` application-error code.
    pub fn application_error() -> (r: ErrorCode)
        ensures
            r == (ErrorCode { b0: CLASS_FINAL, b1: 57, b2: 57 }),
            is_application_error(r),
    {
        ErrorCode { b0: CLASS_FINAL, b1: 57, b2: 57 }
    }

    /// The temporary `T00` internal-error code.
    pub fn internal_error() -> (r: ErrorCode)
        ensures
            r == (ErrorCode { b0: CLASS_TEMPORARY, b1: 48, b2: 48 }),
    {
        ErrorCode { b0: CLASS_TEMPORARY, b1: 48, b2: 48 }
    }

    /// Is this the amount-too-large code?
    pub fn amount_too_large_code(&self) -> (r: bool)
        ensures
            r == is_amount_too_large(*self),
    {
        self.b0 == CLASS_FINAL && self.b1 == 48 && self.b2 == 56
    }

    /// Is this the application-error code?
    pub fn application_error_code(&self) -> (r: bool)
        ensures
            r == is_application_error(*self),
    {
        self.b0 == CLASS_FINAL && self.b1 == 57 && self.b2 == 57
    }

    /// The class of this code.
    pub fn class(&self) -> (r: ErrorClass)
        ensures
            r == class_of(*self),
    {
        if self.b0 == CLASS_FINAL {
            ErrorClass::Final
        } else if self.b0 == CLASS_TEMPORARY {
            ErrorClass::Temporary
        } else if self.b0 == CLASS_RELATIVE {
            ErrorClass::Relative
        } else {
            ErrorClass::Unknown
        }
    }
}

/// A conditional transfer request.
#[derive(Debug, Clone, PartialEq, Eq)]
pub struct Prepare {
    /// The destination address.
    pub destination: Address,
    /// The source amount offered.
    pub amount: u64,
    /// When the transfer lapses: seventeen ASCII digits,
    /// year through millisecond, UTC.
    pub expires_at: Vec<u8>,
    /// The 32-byte commitment whose preimage proves receipt.
    pub execution_condition: Vec<u8>,
    /// The end-to-end payload.
    pub data: Vec<u8>,
}

/// Is the Prepare's shape right: digit timestamp, 32-byte condition, a
/// well-formed destination?
pub open spec fn prepare_wf(p: Prepare) -> bool {
    &&& p.expires_at@.len() == 17
    &&& p.execution_condition@.len() == 32
    &&& p.destination.wf()
}

/// Proof of receipt: its hash must equal the Prepare's condition.
#[derive(Debug, Clone, PartialEq, Eq)]
pub struct Fulfill {
    /// The 32-byte preimage of the execution condition.
    pub fulfillment: Vec<u8>,
    /// The end-to-end payload of the reply.
    pub data: Vec<u8>,
}

/// Is the Fulfill's shape right?
pub open spec fn fulfill_wf(f: Fulfill) -> bool {
    f.fulfillment@.len() == 32
}

/// A refusal of a conditional transfer.
#[derive(Debug, Clone, PartialEq, Eq)]
pub struct Reject {
    /// The three-letter error code.
    pub code: ErrorCode,
    /// Which node refused, when it says so.
    pub triggered_by: Option<Address>,
    /// A human-readable note.
    pub message: Vec<u8>,
    /// The end-to-end payload of the reply.
    pub data: Vec<u8>,
}

impl Reject {
    /// The reject's code.
    pub fn get_code(&self) -> (r: ErrorCode)
        ensures
            r == self.code,
    {
        self.code
    }
}

/// An ILP packet of any of the three kinds.
#[derive(Debug, Clone, PartialEq, Eq)]
pub enum Packet {
    Prepare(Prepare),
    Fulfill(Fulfill),
    Reject(Reject),
}

/// The mathematical image of a packet. An absent triggered-by address
/// is the empty byte string, which no well-formed address equals.
#[verifier::ext_equal]
pub enum PacketV {
    Prepare {
        amount: u64,
        expires_at: Seq<u8>,
        execution_condition: Seq<u8>,
        destination: Seq<u8>,
        data: Seq<u8>,
    },
    Fulfill { fulfillment: Seq<u8>, data: Seq<u8> },
    Reject { code: ErrorCode, triggered_by: Seq<u8>, message: Seq<u8>, data: Seq<u8> },
}

impl View for Packet {
    type V = PacketV;

    open spec fn view(&self) -> PacketV {
        match self {
            Packet::Prepare(pr) => PacketV::Prepare {
                amount: pr.amount,
                expires_at: pr.expires_at@,
                execution_condition: pr.execution_condition@,
                destination: pr.destination@,
                data: pr.data@,
            },
            Packet::Fulfill(f) => PacketV::Fulfill { fulfillment: f.fulfillment@, data: f.data@ },
            Packet::Reject(rj) => PacketV::Reject {
                code: rj.code,
                triggered_by: match rj.triggered_by {
                    Some(a) => a@,
                    None => Seq::empty(),
                },
                message: rj.message@,
                data: rj.data@,
            },
        }
    }
}

/// The wire content of a packet, without envelope.
pub open spec fn enc_packet_content(p: PacketV) -> Seq<u8> {
    match p {
        PacketV::Prepare { amount, expires_at, execution_condition, destination, data } => be_enc(
            amount as nat,
            8,
        ) + expires_at + execution_condition + enc_var(destination) + enc_var(data),
        PacketV::Fulfill { fulfillment, data } => fulfillment + enc_var(data),
        PacketV::Reject { code, triggered_by, message, data } => seq![code.b0, code.b1, code.b2]
            + enc_var(triggered_by) + enc_var(message) + enc_var(data),
    }
}

/// The envelope kind byte of a packet.
pub open spec fn packet_kind_byte(p: PacketV) -> u8 {
    match p {
        PacketV::Prepare { .. } => 12,
        PacketV::Fulfill { .. } => 13,
        PacketV::Reject { .. } => 14,
    }
}

/// The full encoding of a packet: kind byte, then the length-prefixed
/// content.
pub open spec fn enc_packet(p: PacketV) -> Seq<u8> {
    seq![packet_kind_byte(p)] + enc_var(enc_packet_content(p))
}

/// Is the packet fit for the wire: shapes right, address well formed,
/// lengths within the length fields?
pub open spec fn packet_codec_wf(p: PacketV) -> bool {
    match p {
        PacketV::Prepare { expires_at, execution_condition, destination, data, .. } => {
            &&& expires_at.len() == 17
            &&& execution_condition.len() == 32
            &&& addr_wf(destination)
            &&& data.len() + 1200 <= usize::MAX
        },
        PacketV::Fulfill { fulfillment, data } => {
            &&& fulfillment.len() == 32
            &&& data.len() + 80 <= usize::MAX
        },
        PacketV::Reject { triggered_by, message, data, .. } => {
            &&& triggered_by.len() == 0 || addr_wf(triggered_by)
            &&& message.len() + 40 <= usize::MAX
            &&& data.len() + 40 <= usize::MAX
            &&& message.len() + data.len() + 1200 <= usize::MAX
        },
    }
}

/// Decodes a Prepare's content exactly.
pub open spec fn dec_prepare_content(c: Seq<u8>) -> Option<PacketV> {
    if c.len() < 57 {
        None
    } else {
        match dec_var(c, 57) {
            None => None,
            Some((dest, i1)) => if addr_wf(dest) {
                match dec_var(c, i1) {
                    None => None,
                    Some((data, i2)) => if i2 == c.len() {
                        Some(
                            PacketV::Prepare {
                                amount: be_val(c.subrange(0, 8)) as u64,
                                expires_at: c.subrange(8, 25),
                                execution_condition: c.subrange(25, 57),
                                destination: dest,
                                data,
                            },
                        )
                    } else {
                        None
                    },
                }
            } else {
                None
            },
        }
    }
}

/// Decodes a Fulfill's content exactly.
pub open spec fn dec_fulfill_content(c: Seq<u8>) -> Option<PacketV> {
    if c.len() < 32 {
        None
    } else {
        match dec_var(c, 32) {
            None => None,
            Some((data, i1)) => if i1 == c.len() {
                Some(PacketV::Fulfill { fulfillment: c.subrange(0, 32), data })
            } else {
                None
            },
        }
    }
}

/// Decodes a Reject's content exactly.
pub open spec fn dec_reject_content(c: Seq<u8>) -> Option<PacketV> {
    if c.len() < 3 {
        None
    } else {
        match dec_var(c, 3) {
            None => None,
            Some((tb, i1)) => if tb.len() == 0 || addr_wf(tb) {
                match dec_var(c, i1) {
                    None => None,
                    Some((message, i2)) => match dec_var(c, i2) {
                        None => None,
                        Some((data, i3)) => if i3 == c.len() {
                            Some(
                                PacketV::Reject {
                                    code: ErrorCode { b0: c[0], b1: c[1], b2: c[2] },
                                    triggered_by: tb,
                                    message,
                                    data,
                                },
                            )
                        } else {
                            None
                        },
                    },
                }
            } else {
                None
            },
        }
    }
}

/// Decodes a whole packet exactly: envelope, then content by kind.
pub open spec fn dec_packet(s: Seq<u8>) -> Option<PacketV> {
    if s.len() < 1 {
        None
    } else {
        match dec_var(s, 1) {
            None => None,
            Some((c, e)) => if e != s.len() {
                None
            } else if s[0] == 12 {
                dec_prepare_content(c)
            } else if s[0] == 13 {
                dec_fulfill_content(c)
            } else if s[0] == 14 {
                dec_reject_content(c)
            } else {
                None
            },
        }
    }
}

/// Encodes a packet to wire bytes.
pub fn serialize_packet(p: &Packet) -> (r: Vec<u8>)
    requires
        packet_codec_wf(p@),
    ensures
        r@ == enc_packet(p@),
{
    let mut content: Vec<u8> = Vec::new();
    let kind: u8;
    match p {
        Packet::Prepare(pr) => {
            push_be(&mut content, pr.amount, 8);
            content.extend_from_slice(pr.expires_at.as_slice());
            content.extend_from_slice(pr.execution_condition.as_slice());
            write_var(&mut content, pr.destination.as_bytes());
            write_var(&mut content, &pr.data);
            kind = 12;
            assert(content@ =~= enc_packet_content(p@));
        },
        Packet::Fulfill(f) => {
            content.extend_from_slice(f.fulfillment.as_slice());
            write_var(&mut content, &f.data);
            kind = 13;
            assert(content@ =~= enc_packet_content(p@));
        },
        Packet::Reject(rj) => {
            content.push(rj.code.b0);
            content.push(rj.code.b1);
            content.push(rj.code.b2);
            match &rj.triggered_by {
                Some(a) => {
                    write_var(&mut content, a.as_bytes());
                },
                None => {
                    let empty: Vec<u8> = Vec::new();
                    write_var(&mut content, &empty);
                },
            }
            write_var(&mut content, &rj.message);
            write_var(&mut content, &rj.data);
            kind = 14;
            assert(content@ =~= enc_packet_content(p@));
        },
    }
    let mut out: Vec<u8> = Vec::new();
    out.push(kind);
    write_var(&mut out, &content);
    assert(out@ =~= enc_packet(p@));
    out
}

/// Parses a packet from wire bytes, as `dec_packet` describes.
pub fn parse_packet(buf: &Vec<u8>) -> (r: Option<Packet>)
    ensures
        match r {
            Some(p) => dec_packet(buf@) == Some(p@),
            None => dec_packet(buf@) is None,
        },
{
    if buf.len() < 1 {
        return None;
    }
    let kind = buf[0];
    let (content, e) = match read_var(buf, 1) {
        Some(x) => x,
        None => {
            return None;
        },
    };
    if e != buf.len() {
        return None;
    }
    if kind == 12 {
        if content.len() < 57 {
            return None;
        }
        let mut amount: u64 = 0;
        let mut i: usize = 0;
        proof {
            reveal(pow);
        }
        while i < 8
            invariant
                i <= 8,
                content@.len() >= 57,
                amount == be_val(content@.take(i as int)),
                amount < pow(256, i as nat),
            decreases 8 - i,
        {
            proof {
                reveal(pow);
                let sub = content@.take(i + 1);
                assert(sub.drop_last() =~= content@.take(i as int));
                assert(sub.last() == content@[i as int]);
                vstd::arithmetic::power::lemma_pow_adds(256, 1, i as nat);
                vstd::arithmetic::power::lemma_pow1(256);
                assert(amount * 256 + content@[i as int] < 256 * pow(256, i as nat))
                    by (nonlinear_arith)
                    requires
                        amount < pow(256, i as nat),
                        content@[i as int] < 256,
                ;
                if i + 1 < 8 {
                    vstd::arithmetic::power::lemma_pow_strictly_increases(256, (i + 1) as nat, 8);
                }
                crate::oer::lemma_pow256_8();
            }
            amount = amount * 256 + (content[i] as u64);
            i = i + 1;
        }
        let expires_at = match read_fixed(&content, 8, 17) {
            Some((v, _)) => v,
            None => {
                proof {
                    assert(false);
                }
                return None;
            },
        };
        let condition = match read_fixed(&content, 25, 32) {
            Some((v, _)) => v,
            None => {
                proof {
                    assert(false);
                }
                return None;
            },
        };
        let (dest_bytes, i1) = match read_var(&content, 57) {
            Some(x) => x,
            None => {
                return None;
            },
        };
        let destination = match Address::try_from(dest_bytes) {
            Ok(a) => a,
            Err(_) => {
                return None;
            },
        };
        let (data, i2) = match read_var(&content, i1) {
            Some(x) => x,
            None => {
                return None;
            },
        };
        if i2 != content.len() {
            return None;
        }
        proof {
            assert(content@.take(8) =~= content@.subrange(0, 8));
        }
        Some(
            Packet::Prepare(
                Prepare { destination, amount, expires_at, execution_condition: condition, data },
            ),
        )
    } else if kind == 13 {
        if content.len() < 32 {
            return None;
        }
        let fulfillment = match read_fixed(&content, 0, 32) {
            Some((v, _)) => v,
            None => {
                proof {
                    assert(false);
                }
                return None;
            },
        };
        let (data, i1) = match read_var(&content, 32) {
            Some(x) => x,
            None => {
                return None;
            },
        };
        if i1 != content.len() {
            return None;
        }
        Some(Packet::Fulfill(Fulfill { fulfillment, data }))
    } else if kind == 14 {
        if content.len() < 3 {
            return None;
        }
        let code = ErrorCode { b0: content[0], b1: content[1], b2: content[2] };
        let (tb, i1) = match read_var(&content, 3) {
            Some(x) => x,
            None => {
                return None;
            },
        };
        let triggered_by: Option<Address> = if tb.len() == 0 {
            None
        } else {
            match Address::try_from(tb) {
                Ok(a) => Some(a),
                Err(_) => {
                    return None;
                },
            }
        };
        let (message, i2) = match read_var(&content, i1) {
            Some(x) => x,
            None => {
                return None;
            },
        };
        let (data, i3) = match read_var(&content, i2) {
            Some(x) => x,
            None => {
                return None;
            },
        };
        if i3 != content.len() {
            return None;
        }
        Some(Packet::Reject(Reject { code, triggered_by, message, data }))
    } else {
        None
    }
}

/// The shared envelope step of the round trip.
proof fn lemma_envelope_roundtrip(p: PacketV)
    requires
        enc_packet_content(p).len() <= usize::MAX,
    ensures
        ({
            let s = enc_packet(p);
            &&& s.len() >= 1
            &&& s[0] == packet_kind_byte(p)
            &&& dec_var(s, 1) == Some((enc_packet_content(p), s.len() as int))
        }),
{
    let content = enc_packet_content(p);
    let s = enc_packet(p);
    assert(s.subrange(0, s.len() as int) =~= s);
    lemma_subrange_split(s, 0, seq![packet_kind_byte(p)], enc_var(content));
    assert(s[0] == packet_kind_byte(p)) by {
        assert(s.subrange(0, 1)[0] == seq![packet_kind_byte(p)][0]);
    }
    lemma_dec_enc_var(s, 1, content);
}

/// The content length is within the wire's length field.
proof fn lemma_packet_content_len(p: PacketV)
    requires
        packet_codec_wf(p),
    ensures
        enc_packet_content(p).len() <= usize::MAX,
{
    match p {
        PacketV::Prepare { amount, destination, data, .. } => {
            lemma_be_enc_val(amount as nat, 8);
            lemma_enc_len_len(destination.len());
            lemma_enc_len_len(data.len());
        },
        PacketV::Fulfill { data, .. } => {
            lemma_enc_len_len(data.len());
        },
        PacketV::Reject { triggered_by, message, data, .. } => {
            lemma_enc_len_len(triggered_by.len());
            lemma_enc_len_len(message.len());
            lemma_enc_len_len(data.len());
        },
    }
}

/// The Prepare content round trip.
#[verifier::rlimit(100)]
#[verifier::spinoff_prover]
proof fn lemma_prepare_content_roundtrip(p: PacketV)
    requires
        packet_codec_wf(p),
        p is Prepare,
    ensures
        dec_prepare_content(enc_packet_content(p)) == Some(p),
{
    let content = enc_packet_content(p);
    match p {
        PacketV::Prepare { amount, expires_at, execution_condition, destination, data } => {
            lemma_be_enc_val(amount as nat, 8);
            lemma_be_len_u64(amount);
            lemma_enc_len_len(destination.len());
            lemma_enc_len_len(data.len());
            let a = be_enc(amount as nat, 8);
            let rest1 = expires_at + (execution_condition + (enc_var(destination) + enc_var(
                data,
            )));
            assert(content =~= a + rest1);
            assert(content.subrange(0, content.len() as int) =~= content);
            lemma_subrange_split(content, 0, a, rest1);
            assert(content.subrange(0, 8) =~= a);
            lemma_subrange_split(content, 8, expires_at, execution_condition + (enc_var(
                destination,
            ) + enc_var(data)));
            assert(content.subrange(8, 25) =~= expires_at);
            lemma_subrange_split(
                content,
                25,
                execution_condition,
                enc_var(destination) + enc_var(data),
            );
            assert(content.subrange(25, 57) =~= execution_condition);
            lemma_subrange_split(content, 57, enc_var(destination), enc_var(data));
            lemma_dec_enc_var(content, 57, destination);
            let i1 = 57 + enc_var(destination).len() as int;
            lemma_dec_enc_var(content, i1, data);
            assert(be_val(content.subrange(0, 8)) == amount);
        },
        _ => {
            assert(false);
        },
    }
}

/// The Fulfill content round trip.
proof fn lemma_fulfill_content_roundtrip(p: PacketV)
    requires
        packet_codec_wf(p),
        p is Fulfill,
    ensures
        dec_fulfill_content(enc_packet_content(p)) == Some(p),
{
    let content = enc_packet_content(p);
    match p {
        PacketV::Fulfill { fulfillment, data } => {
            lemma_enc_len_len(data.len());
            assert(content =~= fulfillment + enc_var(data));
            assert(content.subrange(0, content.len() as int) =~= content);
            lemma_subrange_split(content, 0, fulfillment, enc_var(data));
            assert(content.subrange(0, 32) =~= fulfillment);
            lemma_dec_enc_var(content, 32, data);
        },
        _ => {
            assert(false);
        },
    }
}

/// The Reject content round trip.
#[verifier::rlimit(100)]
#[verifier::spinoff_prover]
proof fn lemma_reject_content_roundtrip(p: PacketV)
    requires
        packet_codec_wf(p),
        p is Reject,
    ensures
        dec_reject_content(enc_packet_content(p)) == Some(p),
{
    let content = enc_packet_content(p);
    match p {
        PacketV::Reject { code, triggered_by, message, data } => {
            lemma_enc_len_len(triggered_by.len());
            lemma_enc_len_len(message.len());
            lemma_enc_len_len(data.len());
            let h = seq![code.b0, code.b1, code.b2];
            assert(content =~= h + (enc_var(triggered_by) + (enc_var(message) + enc_var(data))));
            assert(content.subrange(0, content.len() as int) =~= content);
            lemma_subrange_split(content, 0, h, enc_var(triggered_by) + (enc_var(message)
                + enc_var(data)));
            assert(content[0] == code.b0 && content[1] == code.b1 && content[2] == code.b2) by {
                assert(content.subrange(0, 3)[0] == h[0]);
                assert(content.subrange(0, 3)[1] == h[1]);
                assert(content.subrange(0, 3)[2] == h[2]);
            }
            lemma_subrange_split(content, 3, enc_var(triggered_by), enc_var(message) + enc_var(
                data,
            ));
            lemma_dec_enc_var(content, 3, triggered_by);
            let i1 = 3 + enc_var(triggered_by).len() as int;
            lemma_subrange_split(content, i1, enc_var(message), enc_var(data));
            lemma_dec_enc_var(content, i1, message);
            let i2 = i1 + enc_var(message).len() as int;
            lemma_dec_enc_var(content, i2, data);
            assert((ErrorCode { b0: content[0], b1: content[1], b2: content[2] }) == code);
        },
        _ => {
            assert(false);
        },
    }
}

/// The round trip of the packet codec: a well-formed packet's encoding
/// decodes to an equal packet.
pub proof fn lemma_packet_roundtrip(p: PacketV)
    requires
        packet_codec_wf(p),
    ensures
        dec_packet(enc_packet(p)) == Some(p),
{
    lemma_packet_content_len(p);
    lemma_envelope_roundtrip(p);
    match p {
        PacketV::Prepare { .. } => {
            lemma_prepare_content_roundtrip(p);
        },
        PacketV::Fulfill { .. } => {
            lemma_fulfill_content_roundtrip(p);
        },
        PacketV::Reject { .. } => {
            lemma_reject_content_roundtrip(p);
        },
    }
}

} // verus!
