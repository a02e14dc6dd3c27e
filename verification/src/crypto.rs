//! Keys, conditions and authenticated encryption for a STREAM
//! connection. All keys are derived from the connection's shared secret;
//! the execution condition of a packet is the hash of a fulfillment that
//! only a holder of the shared secret and the exact packet bytes can
//! compute.

use vstd::prelude::*;
use aes_gcm::KeyInit;
use aes_gcm::aead::Aead;
use sha2::Digest;
use crate::stream_packet::{dec_stream_packet, enc_stream_packet, StreamPacket};

verus! {

/// What SHA-256 returns; a function of the input alone.
pub uninterp spec fn sha256_of(data: Seq<u8>) -> Seq<u8>;

/// What HMAC-SHA-256 returns; a function of key and input alone.
pub uninterp spec fn hmac_sha256_of(key: Seq<u8>, data: Seq<u8>) -> Seq<u8>;

/// What AES-256-GCM sealing returns (ciphertext with the tag appended);
/// a function of key, nonce and plaintext alone.
pub uninterp spec fn gcm_seal_of(key: Seq<u8>, nonce: Seq<u8>, plaintext: Seq<u8>) -> Seq<u8>;

/// What AES-256-GCM opening returns; a function of key, nonce and
/// ciphertext alone.
pub uninterp spec fn gcm_open_of(key: Seq<u8>, nonce: Seq<u8>, ciphertext: Seq<u8>) -> Option<
    Seq<u8>,
>;

/// Relies on sha2's `Sha256`: a 32-byte digest of the input alone.
#[verifier::external_body]
pub(crate) fn sha256(data: &Vec<u8>) -> (r: Vec<u8>)
    ensures
        r@ == sha256_of(data@),
        r@.len() == 32,
{
    sha2::Sha256::digest(data.as_slice()).to_vec()
}

/// Relies on hmac's `Hmac<Sha256>`: a 32-byte tag of key and input
/// alone; any key length is accepted.
#[verifier::external_body]
pub(crate) fn hmac_sha256(key: &Vec<u8>, data: &Vec<u8>) -> (r: Vec<u8>)
    ensures
        r@ == hmac_sha256_of(key@, data@),
        r@.len() == 32,
{
    let mut m = <hmac::Hmac<sha2::Sha256> as hmac::Mac>::new_from_slice(key.as_slice()).expect(
        "any key length",
    );
    hmac::Mac::update(&mut m, data.as_slice());
    hmac::Mac::finalize(m).into_bytes().to_vec()
}

/// Relies on aes-gcm's `Aes256Gcm` encryption: deterministic in key,
/// nonce and plaintext; appends the 16-byte tag; what it seals, opening
/// with the same key and nonce gives back.
#[verifier::external_body]
pub(crate) fn gcm_seal(key: &Vec<u8>, nonce: &Vec<u8>, plaintext: &Vec<u8>) -> (r: Vec<u8>)
    requires
        key@.len() == 32,
        nonce@.len() == 12,
        plaintext@.len() <= 0xFFFF_FFFF,
    ensures
        r@ == gcm_seal_of(key@, nonce@, plaintext@),
        r@.len() == plaintext@.len() + 16,
        gcm_open_of(key@, nonce@, r@) == Some(plaintext@),
{
    let cipher = aes_gcm::Aes256Gcm::new_from_slice(key.as_slice()).expect("32-byte key");
    cipher
        .encrypt(aes_gcm::Nonce::from_slice(nonce.as_slice()), plaintext.as_slice())
        .expect("plaintext within AES-GCM limits")
}

/// Relies on aes-gcm's `Aes256Gcm` decryption: deterministic in key,
/// nonce and ciphertext; fails rather than returning unauthenticated
/// bytes.
#[verifier::external_body]
pub(crate) fn gcm_open(key: &Vec<u8>, nonce: &Vec<u8>, ciphertext: &Vec<u8>) -> (r: Option<Vec<u8>>)
    requires
        key@.len() == 32,
        nonce@.len() == 12,
    ensures
        match r {
            Some(p) => gcm_open_of(key@, nonce@, ciphertext@) == Some(p@),
            None => gcm_open_of(key@, nonce@, ciphertext@) is None,
        },
{
    let cipher = aes_gcm::Aes256Gcm::new_from_slice(key.as_slice()).expect("32-byte key");
    match cipher.decrypt(aes_gcm::Nonce::from_slice(nonce.as_slice()), ciphertext.as_slice()) {
        Ok(p) => Some(p),
        Err(_) => None,
    }
}

/// Relies on rand's thread-local generator: `n` bytes of whose value
/// nothing is promised.
#[verifier::external_body]
pub(crate) fn random_bytes(n: usize) -> (r: Vec<u8>)
    ensures
        r@.len() == n,
{
    let mut buf = vec![0u8; n];
    rand::RngCore::fill_bytes(&mut rand::thread_rng(), &mut buf);
    buf
}

/// The key-derivation context naming the encryption key.
pub open spec fn enc_key_context() -> Seq<u8> {
    seq![
        105u8,
        108,
        112,
        95,
        115,
        116,
        114,
        101,
        97,
        109,
        95,
        101,
        110,
        99,
        114,
        121,
        112,
        116,
        105,
        111,
        110,
    ]
}

/// The key-derivation context naming the fulfillment key.
pub open spec fn fulfill_key_context() -> Seq<u8> {
    seq![
        105u8,
        108,
        112,
        95,
        115,
        116,
        114,
        101,
        97,
        109,
        95,
        102,
        117,
        108,
        102,
        105,
        108,
        108,
        109,
        101,
        110,
        116,
    ]
}

/// The encryption key of a connection.
pub open spec fn enc_key_of(secret: Seq<u8>) -> Seq<u8> {
    hmac_sha256_of(secret, enc_key_context())
}

/// The fulfillment key of a connection.
pub open spec fn fulfill_key_of(secret: Seq<u8>) -> Seq<u8> {
    hmac_sha256_of(secret, fulfill_key_context())
}

/// The fulfillment of a packet: an HMAC over the prepare data, keyed by
/// the connection's fulfillment key.
pub open spec fn fulfillment_of(secret: Seq<u8>, data: Seq<u8>) -> Seq<u8> {
    hmac_sha256_of(fulfill_key_of(secret), data)
}

/// The execution condition of a packet: the hash of its fulfillment.
pub open spec fn condition_of(secret: Seq<u8>, data: Seq<u8>) -> Seq<u8> {
    sha256_of(fulfillment_of(secret, data))
}

/// The encrypted payload layout: nonce, tag, then ciphertext.
pub open spec fn stream_encrypt_of(secret: Seq<u8>, iv: Seq<u8>, plaintext: Seq<u8>) -> Seq<u8> {
    let sealed = gcm_seal_of(enc_key_of(secret), iv, plaintext);
    iv + sealed.subrange(plaintext.len() as int, sealed.len() as int) + sealed.subrange(
        0,
        plaintext.len() as int,
    )
}

/// Opening an encrypted payload: split off nonce and tag, then open.
pub open spec fn stream_decrypt_of(secret: Seq<u8>, data: Seq<u8>) -> Option<Seq<u8>> {
    if data.len() < 28 {
        None
    } else {
        let iv = data.subrange(0, 12);
        let tag = data.subrange(12, 28);
        let ct = data.subrange(28, data.len() as int);
        gcm_open_of(enc_key_of(secret), iv, ct + tag)
    }
}

/// The encryption key, computed at run time.
pub(crate) fn derive_enc_key(secret: &Vec<u8>) -> (r: Vec<u8>)
    ensures
        r@ == enc_key_of(secret@),
        r@.len() == 32,
{
    let context: Vec<u8> = vec![
        105u8, 108, 112, 95, 115, 116, 114, 101, 97, 109, 95, 101, 110, 99, 114, 121, 112, 116,
        105, 111, 110,
    ];
    assert(context@ =~= enc_key_context());
    hmac_sha256(secret, &context)
}

/// The fulfillment key, computed at run time.
pub(crate) fn derive_fulfill_key(secret: &Vec<u8>) -> (r: Vec<u8>)
    ensures
        r@ == fulfill_key_of(secret@),
        r@.len() == 32,
{
    let context: Vec<u8> = vec![
        105u8, 108, 112, 95, 115, 116, 114, 101, 97, 109, 95, 102, 117, 108, 102, 105, 108, 108,
        109, 101, 110, 116,
    ];
    assert(context@ =~= fulfill_key_context());
    hmac_sha256(secret, &context)
}

/// The fulfillment a cooperative receiver returns for the given prepare
/// data.
pub fn generate_fulfillment(secret: &Vec<u8>, data: &Vec<u8>) -> (r: Vec<u8>)
    ensures
        r@ == fulfillment_of(secret@, data@),
        r@.len() == 32,
{
    let key = derive_fulfill_key(secret);
    hmac_sha256(&key, data)
}

/// The execution condition demanded for the given prepare data.
pub fn generate_condition(secret: &Vec<u8>, data: &Vec<u8>) -> (r: Vec<u8>)
    ensures
        r@ == condition_of(secret@, data@),
        r@.len() == 32,
{
    let f = generate_fulfillment(secret, data);
    sha256(&f)
}

/// Thirty-two random bytes: a condition without a computable preimage,
/// for packets that must not be fulfillable.
pub fn random_condition() -> (r: Vec<u8>)
    ensures
        r@.len() == 32,
{
    random_bytes(32)
}

/// Does the fulfillment hash to the condition?
pub fn fulfillment_matches(fulfillment: &Vec<u8>, condition: &Vec<u8>) -> (r: bool)
    ensures
        r == (sha256_of(fulfillment@) == condition@),
{
    let h = sha256(fulfillment);
    let mut i: usize = 0;
    if h.len() != condition.len() {
        return false;
    }
    while i < h.len()
        invariant
            i <= h@.len(),
            h@.len() == condition@.len(),
            h@ == sha256_of(fulfillment@),
            forall|j: int| 0 <= j < i ==> h@[j] == condition@[j],
        decreases h@.len() - i,
    {
        if h[i] != condition[i] {
            return false;
        }
        i = i + 1;
    }
    proof {
        assert(h@ =~= condition@);
    }
    true
}

/// Encrypts a STREAM packet under the shared secret with a fresh random
/// nonce. What comes out decrypts, under the same secret, to the exact
/// plaintext encoding of the packet.
pub fn encrypt_stream_packet(secret: &Vec<u8>, packet: &StreamPacket) -> (r: Vec<u8>)
    requires
        enc_stream_packet(packet@).len() <= 0xFFFF_FFFF,
    ensures
        stream_decrypt_of(secret@, r@) == Some(enc_stream_packet(packet@)),
        r@.len() == enc_stream_packet(packet@).len() + 28,
        exists|iv: Seq<u8>|
            iv.len() == 12 && r@ == stream_encrypt_of(secret@, iv, enc_stream_packet(packet@)),
{
    let bytes = crate::stream_packet::serialize_stream_packet(packet);
    let key = derive_enc_key(secret);
    let iv = random_bytes(12);
    let sealed = gcm_seal(&key, &iv, &bytes);
    let ct_len = sealed.len() - 16;
    let tag = match crate::oer::read_fixed(&sealed, ct_len, 16) {
        Some((t, _)) => t,
        None => {
            proof {
                assert(false);
            }
            Vec::new()
        },
    };
    let ct = match crate::oer::read_fixed(&sealed, 0, ct_len) {
        Some((c, _)) => c,
        None => {
            proof {
                assert(false);
            }
            Vec::new()
        },
    };
    let mut out: Vec<u8> = Vec::new();
    out.extend_from_slice(iv.as_slice());
    out.extend_from_slice(tag.as_slice());
    out.extend_from_slice(ct.as_slice());
    proof {
        let pt = enc_stream_packet(packet@);
        let sealedv = gcm_seal_of(enc_key_of(secret@), iv@, pt);
        assert(out@ =~= iv@ + tag@ + ct@);
        assert(tag@ =~= sealedv.subrange(pt.len() as int, sealedv.len() as int));
        assert(ct@ =~= sealedv.subrange(0, pt.len() as int));
        assert(out@ =~= stream_encrypt_of(secret@, iv@, pt));
        assert(out@.subrange(0, 12) =~= iv@);
        assert(out@.subrange(12, 28) =~= tag@);
        assert(out@.subrange(28, out@.len() as int) =~= ct@);
        assert(ct@ + tag@ =~= sealedv);
        assert(stream_decrypt_of(secret@, out@) == Some(pt));
    }
    out
}

/// Tries to decrypt and parse a STREAM packet. Tampered, truncated or
/// wrongly keyed payloads fail.
pub fn decrypt_stream_packet(secret: &Vec<u8>, data: &Vec<u8>) -> (r: Option<StreamPacket>)
    ensures
        match r {
            Some(p) => {
                &&& stream_decrypt_of(secret@, data@) matches Some(pt)
                &&& dec_stream_packet(stream_decrypt_of(secret@, data@)->Some_0) == Some(p@)
            },
            None => stream_decrypt_of(secret@, data@) matches Some(pt) ==> dec_stream_packet(pt)
                is None,
        },
{
    if data.len() < 28 {
        return None;
    }
    let key = derive_enc_key(secret);
    let iv = match crate::oer::read_fixed(data, 0, 12) {
        Some((v, _)) => v,
        None => {
            proof {
                assert(false);
            }
            return None;
        },
    };
    let tag = match crate::oer::read_fixed(data, 12, 16) {
        Some((v, _)) => v,
        None => {
            proof {
                assert(false);
            }
            return None;
        },
    };
    let mut ct = match crate::oer::read_fixed(data, 28, data.len() - 28) {
        Some((v, _)) => v,
        None => {
            proof {
                assert(false);
            }
            return None;
        },
    };
    ct.extend_from_slice(tag.as_slice());
    proof {
        assert(ct@ =~= data@.subrange(28, data@.len() as int) + data@.subrange(12, 28));
        assert(iv@ =~= data@.subrange(0, 12));
    }
    let pt = match gcm_open(&key, &iv, &ct) {
        Some(p) => p,
        None => {
            return None;
        },
    };
    crate::stream_packet::parse_stream_packet(&pt)
}

} // verus!
