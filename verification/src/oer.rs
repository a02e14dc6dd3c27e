//! Length-prefixed, self-delimiting binary primitives shared by the
//! packet codecs: big-endian integers, variable-length length prefixes,
//! and variable-length octet strings.

use vstd::prelude::*;
use vstd::arithmetic::div_mod::lemma_breakdown;
use vstd::arithmetic::power::{
    pow,
    lemma_pow0,
    lemma_pow1,
    lemma_pow_adds,
    lemma_pow_positive,
    lemma_pow_strictly_increases,
};

verus! {

/// The eight-byte radix bound, unfolded.
pub proof fn lemma_pow256_8()
    ensures
        pow(256, 8) == 0x1_0000_0000_0000_0000,
{
    reveal_with_fuel(pow, 9);
}

/// The value of a big-endian byte string.
pub open spec fn be_val(s: Seq<u8>) -> nat
    decreases s.len(),
{
    if s.len() == 0 {
        0
    } else {
        be_val(s.drop_last()) * 256 + (s.last() as nat)
    }
}

/// The minimal number of big-endian bytes that hold `v` (at least one).
pub open spec fn be_len(v: nat) -> nat
    decreases v,
{
    if v < 256 {
        1
    } else {
        1 + be_len(v / 256)
    }
}

/// The `n`-byte big-endian encoding of `v % 256^n`.
pub open spec fn be_enc(v: nat, n: nat) -> Seq<u8>
    decreases n,
{
    if n == 0 {
        Seq::empty()
    } else {
        be_enc(v / 256, (n - 1) as nat).push((v % 256) as u8)
    }
}

pub proof fn lemma_be_enc_val(v: nat, n: nat)
    ensures
        be_enc(v, n).len() == n,
        be_val(be_enc(v, n)) as int == (v as int) % pow(256, n),
        v < pow(256, n) ==> be_val(be_enc(v, n)) == v,
    decreases n,
{
    reveal(pow);
    lemma_pow_positive(256, n);
    if n == 0 {
        assert(pow(256, 0) == 1);
        assert((v as int) % 1 == 0) by (nonlinear_arith);
    } else {
        lemma_be_enc_val(v / 256, (n - 1) as nat);
        let inner = be_enc(v / 256, (n - 1) as nat);
        assert(be_enc(v, n).drop_last() =~= inner);
        assert(be_val(be_enc(v, n)) == be_val(inner) * 256 + (v % 256) as u8);
        lemma_pow_positive(256, (n - 1) as nat);
        lemma_breakdown(v as int, 256, pow(256, (n - 1) as nat));
        assert(pow(256, n) == 256 * pow(256, (n - 1) as nat)) by {
            lemma_pow_adds(256, 1, (n - 1) as nat);
            lemma_pow1(256);
        }
        assert((v as int) % (256 * pow(256, (n - 1) as nat)) == 256 * (((v as int) / 256) % pow(
            256,
            (n - 1) as nat,
        )) + (v as int) % 256);
    }
}

/// `v` always fits in `be_len(v)` bytes.
pub proof fn lemma_be_len_fits(v: nat)
    ensures
        v < pow(256, be_len(v)),
        be_len(v) >= 1,
    decreases v,
{
    reveal(pow);
    if v < 256 {
        lemma_pow1(256);
        lemma_pow0(256);
    } else {
        lemma_be_len_fits(v / 256);
        let k = be_len(v / 256);
        assert(pow(256, k + 1) == 256 * pow(256, k)) by {
            lemma_pow_adds(256, 1, k);
            lemma_pow1(256);
        }
        assert(v < 256 * (v / 256) + 256) by (nonlinear_arith);
        assert(256 * (v / 256) + 256 <= 256 * pow(256, k)) by (nonlinear_arith)
            requires
                v / 256 < pow(256, k),
        ;
    }
}

/// If `v` fits in `k` bytes then `be_len(v) <= k`.
pub proof fn lemma_be_len_le(v: nat, k: nat)
    requires
        k >= 1,
        v < pow(256, k),
    ensures
        be_len(v) <= k,
    decreases k,
{
    reveal(pow);
    if v < 256 {
    } else {
        assert(pow(256, k) == 256 * pow(256, (k - 1) as nat)) by {
            lemma_pow_adds(256, 1, (k - 1) as nat);
            lemma_pow1(256);
        }
        lemma_pow_positive(256, (k - 1) as nat);
        if k == 1 {
            lemma_pow1(256);
            assert(false);
        }
        assert(v / 256 < pow(256, (k - 1) as nat)) by (nonlinear_arith)
            requires
                v < 256 * pow(256, (k - 1) as nat),
        ;
        lemma_be_len_le(v / 256, (k - 1) as nat);
    }
}

/// All `u64` values fit in eight bytes.
pub proof fn lemma_be_len_u64(v: u64)
    ensures
        1 <= be_len(v as nat) <= 8,
        (v as nat) < pow(256, 8),
{
    lemma_pow256_8();
    lemma_be_len_fits(v as nat);
    lemma_be_len_le(v as nat, 8);
}

/// Appends the `n`-byte big-endian encoding of `v`.
pub fn push_be(out: &mut Vec<u8>, v: u64, n: usize)
    requires
        n <= 8,
    ensures
        final(out)@ == old(out)@ + be_enc(v as nat, n as nat),
    decreases n,
{
    if n == 0 {
        assert(out@ =~= old(out)@ + be_enc(v as nat, 0));
    } else {
        push_be(out, v / 256, n - 1);
        out.push((v % 256) as u8);
        assert(out@ =~= old(out)@ + be_enc(v as nat, n as nat));
    }
}

/// The minimal byte count of `v`, computed at run time.
pub fn be_len_exec(v: u64) -> (n: usize)
    ensures
        n == be_len(v as nat),
        1 <= n <= 8,
    decreases v,
{
    proof {
        lemma_be_len_u64(v);
    }
    if v < 256 {
        1
    } else {
        1 + be_len_exec(v / 256)
    }
}

/// The length prefix for a field of `n` content bytes.
pub open spec fn enc_len(n: nat) -> Seq<u8> {
    if n < 128 {
        seq![n as u8]
    } else {
        seq![(128 + be_len(n)) as u8] + be_enc(n, be_len(n))
    }
}

/// A length-prefixed octet string.
pub open spec fn enc_var(s: Seq<u8>) -> Seq<u8> {
    enc_len(s.len()) + s
}

/// A length-prefixed, minimal big-endian unsigned integer.
pub open spec fn enc_var_u64(v: nat) -> Seq<u8> {
    enc_var(be_enc(v, be_len(v)))
}

/// Appends the length prefix for `n` content bytes.
pub fn write_len(out: &mut Vec<u8>, n: usize)
    ensures
        final(out)@ == old(out)@ + enc_len(n as nat),
{
    if n < 128 {
        out.push(n as u8);
        assert(out@ =~= old(out)@ + enc_len(n as nat));
    } else {
        proof {
            lemma_be_len_fits(n as nat);
            lemma_pow256_8();
            lemma_be_len_le(n as nat, 8);
        }
        let k = be_len_exec(n as u64);
        out.push((128 + k) as u8);
        push_be(out, n as u64, k);
        assert(out@ =~= old(out)@ + enc_len(n as nat));
    }
}

/// Appends a length-prefixed octet string.
pub fn write_var(out: &mut Vec<u8>, s: &Vec<u8>)
    ensures
        final(out)@ == old(out)@ + enc_var(s@),
{
    write_len(out, s.len());
    let mut i: usize = 0;
    while i < s.len()
        invariant
            i <= s@.len(),
            out@ == old(out)@ + enc_len(s@.len()) + s@.take(i as int),
        decreases s@.len() - i,
    {
        out.push(s[i]);
        assert(out@ =~= old(out)@ + enc_len(s@.len()) + s@.take(i + 1));
        i = i + 1;
    }
    assert(s@.take(s@.len() as int) =~= s@);
    assert(out@ =~= old(out)@ + enc_var(s@));
}

/// Appends a length-prefixed minimal big-endian integer.
pub fn write_var_u64(out: &mut Vec<u8>, v: u64)
    ensures
        final(out)@ == old(out)@ + enc_var_u64(v as nat),
{
    let k = be_len_exec(v);
    proof {
        lemma_be_enc_val(v as nat, k as nat);
    }
    write_len(out, k);
    push_be(out, v, k);
    assert(out@ =~= old(out)@ + enc_var_u64(v as nat));
}

/// Decodes a length prefix at position `i`: the content length and the
/// position just after the prefix.
pub open spec fn dec_len(s: Seq<u8>, i: int) -> Option<(nat, int)> {
    if !(0 <= i < s.len()) {
        None
    } else if s[i] < 128 {
        Some((s[i] as nat, i + 1))
    } else {
        let k = (s[i] - 128) as nat;
        if k < 1 || k > 8 || i + 1 + k > s.len() {
            None
        } else {
            let v = be_val(s.subrange(i + 1, i + 1 + k));
            if v > usize::MAX {
                None
            } else {
                Some((v, i + 1 + k))
            }
        }
    }
}

/// Decodes a length-prefixed octet string at position `i`.
pub open spec fn dec_var(s: Seq<u8>, i: int) -> Option<(Seq<u8>, int)> {
    match dec_len(s, i) {
        None => None,
        Some((n, j)) => if j + n <= s.len() {
            Some((s.subrange(j, j + n), j + n))
        } else {
            None
        },
    }
}

/// Decodes a length-prefixed unsigned integer (one to eight content bytes).
pub open spec fn dec_var_u64(s: Seq<u8>, i: int) -> Option<(u64, int)> {
    match dec_var(s, i) {
        None => None,
        Some((c, j)) => if 1 <= c.len() <= 8 {
            Some((be_val(c) as u64, j))
        } else {
            None
        },
    }
}

/// The value of at most eight big-endian bytes fits in a `u64`.
pub proof fn lemma_be_val_bound(s: Seq<u8>)
    requires
        s.len() <= 8,
    ensures
        be_val(s) < pow(256, s.len()),
        be_val(s) <= u64::MAX,
    decreases s.len(),
{
    reveal(pow);
    lemma_pow256_8();
    if s.len() == 0 {
    } else {
        lemma_be_val_bound(s.drop_last());
        let n = s.len();
        assert(pow(256, n) == 256 * pow(256, (n - 1) as nat)) by {
            lemma_pow_adds(256, 1, (n - 1) as nat);
            lemma_pow1(256);
        }
        assert(be_val(s.drop_last()) * 256 + s.last() < 256 * pow(256, (n - 1) as nat))
            by (nonlinear_arith)
            requires
                be_val(s.drop_last()) < pow(256, (n - 1) as nat),
                s.last() < 256,
        ;
        if s.len() < 8 {
            lemma_pow_strictly_increases(256, s.len(), 8);
        }
    }
}

/// Reads a length prefix at `pos`.
pub fn read_len(buf: &Vec<u8>, pos: usize) -> (r: Option<(usize, usize)>)
    ensures
        match r {
            Some((n, j)) => dec_len(buf@, pos as int) == Some((n as nat, j as int)),
            None => dec_len(buf@, pos as int) is None,
        },
{
    if pos >= buf.len() {
        return None;
    }
    let b = buf[pos];
    if b < 128 {
        Some((b as usize, pos + 1))
    } else {
        let k = (b - 128) as usize;
        if k < 1 || k > 8 || k > buf.len() - pos - 1 {
            return None;
        }
        let mut v: u64 = 0;
        let mut i: usize = 0;
        proof {
            reveal(pow);
        }
        while i < k
            invariant
                i <= k,
                1 <= k <= 8,
                pos + 1 + k <= buf@.len(),
                buf@.len() <= usize::MAX,
                v == be_val(buf@.subrange(pos + 1, pos + 1 + i)),
                v < pow(256, i as nat),
            decreases k - i,
        {
            proof {
                reveal(pow);
                let sub = buf@.subrange(pos + 1, pos + 1 + i + 1);
                assert(sub.drop_last() =~= buf@.subrange(pos + 1, pos + 1 + i));
                assert(sub.last() == buf@[pos + 1 + i]);
                assert(pow(256, (i + 1) as nat) == 256 * pow(256, i as nat)) by {
                    lemma_pow_adds(256, 1, i as nat);
                    lemma_pow1(256);
                }
                assert(v * 256 + buf@[pos + 1 + i] < 256 * pow(256, i as nat)) by (nonlinear_arith)
                    requires
                        v < pow(256, i as nat),
                        buf@[pos + 1 + i] < 256,
                ;
                assert(pow(256, (i + 1) as nat) <= pow(256, 8nat)) by {
                    if i + 1 < 8 {
                        lemma_pow_strictly_increases(256, (i + 1) as nat, 8);
                    }
                }
                lemma_pow256_8();
            }
            v = v * 256 + (buf[pos + 1 + i] as u64);
            i = i + 1;
        }
        if v > (usize::MAX as u64) {
            return None;
        }
        Some((v as usize, pos + 1 + k))
    }
}

/// Reads a length-prefixed octet string at `pos`.
pub fn read_var(buf: &Vec<u8>, pos: usize) -> (r: Option<(Vec<u8>, usize)>)
    ensures
        match r {
            Some((c, j)) => dec_var(buf@, pos as int) == Some((c@, j as int)),
            None => dec_var(buf@, pos as int) is None,
        },
{
    match read_len(buf, pos) {
        None => None,
        Some((n, j)) => {
            if n > buf.len() - j {
                return None;
            }
            let mut c: Vec<u8> = Vec::new();
            let mut i: usize = 0;
            while i < n
                invariant
                    i <= n,
                    j + n <= buf@.len(),
                    buf@.len() <= usize::MAX,
                    c@ == buf@.subrange(j as int, j + i),
                decreases n - i,
            {
                c.push(buf[j + i]);
                assert(c@ =~= buf@.subrange(j as int, j + i + 1));
                i = i + 1;
            }
            Some((c, j + n))
        },
    }
}

/// Reads a length-prefixed unsigned integer at `pos`.
pub fn read_var_u64(buf: &Vec<u8>, pos: usize) -> (r: Option<(u64, usize)>)
    ensures
        match r {
            Some((v, j)) => dec_var_u64(buf@, pos as int) == Some((v, j as int)),
            None => dec_var_u64(buf@, pos as int) is None,
        },
{
    match read_var(buf, pos) {
        None => None,
        Some((c, j)) => {
            if c.len() < 1 || c.len() > 8 {
                return None;
            }
            let mut v: u64 = 0;
            let mut i: usize = 0;
            proof {
                reveal(pow);
            }
            while i < c.len()
                invariant
                    i <= c@.len() <= 8,
                    v == be_val(c@.take(i as int)),
                    v < pow(256, i as nat),
            decreases c@.len() - i,
            {
                proof {
                    reveal(pow);
                    let sub = c@.take(i + 1);
                    assert(sub.drop_last() =~= c@.take(i as int));
                    assert(sub.last() == c@[i as int]);
                    assert(pow(256, (i + 1) as nat) == 256 * pow(256, i as nat)) by {
                        lemma_pow_adds(256, 1, i as nat);
                        lemma_pow1(256);
                    }
                    assert(v * 256 + c@[i as int] < 256 * pow(256, i as nat)) by (nonlinear_arith)
                        requires
                            v < pow(256, i as nat),
                            c@[i as int] < 256,
                    ;
                    assert(pow(256, (i + 1) as nat) <= pow(256, 8nat)) by {
                        if i + 1 < 8 {
                            lemma_pow_strictly_increases(256, (i + 1) as nat, 8);
                        }
                    }
                    lemma_pow256_8();
                }
                v = v * 256 + (c[i] as u64);
                i = i + 1;
            }
            assert(c@.take(c@.len() as int) =~= c@);
            Some((v, j))
        },
    }
}

/// Reads exactly `n` bytes at `pos`.
pub fn read_fixed(buf: &Vec<u8>, pos: usize, n: usize) -> (r: Option<(Vec<u8>, usize)>)
    ensures
        match r {
            Some((c, j)) => {
                &&& pos + n <= buf@.len()
                &&& c@ == buf@.subrange(pos as int, pos + n)
                &&& j == pos + n
            },
            None => pos + n > buf@.len(),
        },
{
    if pos > buf.len() || n > buf.len() - pos {
        return None;
    }
    let mut c: Vec<u8> = Vec::new();
    let mut i: usize = 0;
    while i < n
        invariant
            i <= n,
            pos + n <= buf@.len(),
            buf@.len() <= usize::MAX,
            c@ == buf@.subrange(pos as int, pos + i),
        decreases n - i,
    {
        c.push(buf[pos + i]);
        assert(c@ =~= buf@.subrange(pos as int, pos + i + 1));
        i = i + 1;
    }
    Some((c, pos + n))
}

/// A length prefix written by `enc_len` decodes to the same length.
pub proof fn lemma_dec_enc_len(s: Seq<u8>, i: int, n: nat)
    requires
        0 <= i,
        n <= usize::MAX,
        i + enc_len(n).len() <= s.len(),
        s.subrange(i, i + enc_len(n).len()) == enc_len(n),
    ensures
        dec_len(s, i) == Some((n, i + enc_len(n).len())),
{
    if n < 128 {
        assert(s[i] == enc_len(n)[0]);
    } else {
        let k = be_len(n);
        lemma_be_len_fits(n);
        lemma_pow256_8();
        assert((usize::MAX as nat) < pow(256, 8));
        lemma_be_len_le(n, 8);
        lemma_be_enc_val(n, k);
        assert(s[i] == enc_len(n)[0]);
        assert(s[i] == 128 + k);
        assert forall|y: int| 0 <= y < k implies s.subrange(i + 1, i + 1 + k)[y] == be_enc(
            n,
            k,
        )[y] by {
            assert(s.subrange(i, i + enc_len(n).len())[y + 1] == enc_len(n)[y + 1]);
        }
        assert(s.subrange(i + 1, i + 1 + k) =~= be_enc(n, k));
        assert(be_val(s.subrange(i + 1, i + 1 + k)) == n);
    }
}

/// An octet string written by `enc_var` decodes to the same bytes.
pub proof fn lemma_dec_enc_var(s: Seq<u8>, i: int, c: Seq<u8>)
    requires
        0 <= i,
        c.len() <= usize::MAX,
        i + enc_var(c).len() <= s.len(),
        s.subrange(i, i + enc_var(c).len()) == enc_var(c),
    ensures
        dec_var(s, i) == Some((c, i + enc_var(c).len())),
{
    let pl = enc_len(c.len()).len();
    assert(s.subrange(i, i + pl) =~= enc_len(c.len())) by {
        assert(forall|x: int| 0 <= x < pl ==> #[trigger] s.subrange(i, i + enc_var(c).len())[x]
            == enc_var(c)[x]);
    }
    lemma_dec_enc_len(s, i, c.len());
    assert forall|y: int| 0 <= y < c.len() implies s.subrange(i + pl, i + pl + c.len())[y]
        == c[y] by {
        assert(s.subrange(i, i + enc_var(c).len())[pl + y] == enc_var(c)[pl + y]);
    }
    assert(s.subrange(i + pl, i + pl + c.len()) =~= c);
}

/// An integer written by `enc_var_u64` decodes to the same value.
pub proof fn lemma_dec_enc_var_u64(s: Seq<u8>, i: int, v: u64)
    requires
        0 <= i,
        i + enc_var_u64(v as nat).len() <= s.len(),
        s.subrange(i, i + enc_var_u64(v as nat).len()) == enc_var_u64(v as nat),
    ensures
        dec_var_u64(s, i) == Some((v, i + enc_var_u64(v as nat).len())),
{
    lemma_be_len_u64(v);
    lemma_be_len_fits(v as nat);
    lemma_be_enc_val(v as nat, be_len(v as nat));
    let c = be_enc(v as nat, be_len(v as nat));
    lemma_dec_enc_var(s, i, c);
}

/// A prefix length bound: the length prefix itself is at most nine bytes.
pub proof fn lemma_enc_len_len(n: nat)
    requires
        n <= usize::MAX,
    ensures
        1 <= enc_len(n).len() <= 9,
        enc_var(be_enc(n, be_len(n))).len() <= 17,
{
    lemma_pow256_8();
    if n < 128 {
    } else {
        lemma_be_len_le(n, 8);
        lemma_be_enc_val(n, be_len(n));
    }
    lemma_be_len_le(n, 8);
    lemma_be_enc_val(n, be_len(n));
    lemma_be_enc_val(n, be_len(n));
}

/// A length-prefixed integer takes at most nine bytes.
pub proof fn lemma_enc_var_u64_len(v: u64)
    ensures
        1 <= enc_var_u64(v as nat).len() <= 9,
{
    lemma_be_len_u64(v);
    lemma_be_enc_val(v as nat, be_len(v as nat));
    assert(enc_len(be_len(v as nat)).len() == 1);
}

/// Restricting a concatenation recovers each part.
pub proof fn lemma_subrange_split(s: Seq<u8>, i: int, a: Seq<u8>, b: Seq<u8>)
    requires
        0 <= i,
        i + a.len() + b.len() <= s.len(),
        s.subrange(i, i + a.len() + b.len()) == a + b,
    ensures
        s.subrange(i, i + a.len()) == a,
        s.subrange(i + a.len(), i + a.len() + b.len()) == b,
{
    assert forall|x: int| 0 <= x < a.len() implies s.subrange(i, i + a.len())[x] == a[x] by {
        assert(s.subrange(i, i + a.len() + b.len())[x] == (a + b)[x]);
    }
    assert(s.subrange(i, i + a.len()) =~= a);
    assert forall|x: int| 0 <= x < b.len() implies s.subrange(
        i + a.len(),
        i + a.len() + b.len(),
    )[x] == b[x] by {
        assert(s.subrange(i, i + a.len() + b.len())[a.len() + x] == (a + b)[a.len() + x]);
        assert(s.subrange(i, i + a.len() + b.len())[a.len() + x] == s[i + a.len() + x]);
        assert((a + b)[a.len() + x] == b[x]);
        assert(s.subrange(i + a.len(), i + a.len() + b.len())[x] == s[i + a.len() + x]);
    }
    assert(s.subrange(i + a.len(), i + a.len() + b.len()) =~= b);
}

} // verus!
