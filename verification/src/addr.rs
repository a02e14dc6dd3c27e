//! ILP addresses: dot-separated ASCII paths naming a destination on the
//! network. The leftmost label is the address scheme.

use vstd::prelude::*;

verus! {

/// ASCII '.'
pub const DOT: u8 = 46;

/// Is `b` a byte that may appear in an ILP address?
pub open spec fn addr_byte(b: u8) -> bool {
    (97 <= b <= 122) || (65 <= b <= 90) || (48 <= b <= 57) || b == DOT || b == 95 || b == 126
        || b == 45
}

/// A well-formed address: nonempty, at most 1023 bytes, only address
/// bytes, and neither starting nor ending with a separator dot.
pub open spec fn addr_wf(s: Seq<u8>) -> bool {
    &&& 1 <= s.len() <= 1023
    &&& forall|i: int| 0 <= i < s.len() ==> addr_byte(#[trigger] s[i])
    &&& s[0] != DOT
    &&& s[s.len() - 1] != DOT
}

/// The length of the scheme: the prefix up to the first dot, or the
/// whole address when it has a single label.
pub open spec fn scheme_end(s: Seq<u8>) -> int {
    if exists|i: int| 0 <= i < s.len() && s[i] == DOT {
        choose|i: int|
            0 <= i < s.len() && s[i] == DOT && (forall|j: int| 0 <= j < i ==> s[j] != DOT)
    } else {
        s.len() as int
    }
}

/// The scheme of an address: its leftmost dot-separated label.
pub open spec fn scheme_of(s: Seq<u8>) -> Seq<u8> {
    s.take(scheme_end(s))
}

/// An ILP address.
#[derive(Debug, Clone, PartialEq, Eq)]
pub struct Address {
    bytes: Vec<u8>,
}

impl Address {
    /// The address bytes.
    pub closed spec fn view(&self) -> Seq<u8> {
        self.bytes@
    }

    /// Does this value satisfy the address shape?
    pub open spec fn wf(&self) -> bool {
        addr_wf(self@)
    }

    /// Parses an address from raw bytes, rejecting malformed input.
    pub fn try_from(bytes: Vec<u8>) -> (r: Result<Address, ()>)
        ensures
            r matches Ok(a) ==> a@ == bytes@ && a.wf(),
            r is Err <==> !addr_wf(bytes@),
    {
        if bytes.len() < 1 || bytes.len() > 1023 {
            return Err(());
        }
        if bytes[0] == DOT || bytes[bytes.len() - 1] == DOT {
            return Err(());
        }
        let mut i: usize = 0;
        while i < bytes.len()
            invariant
                i <= bytes@.len(),
                forall|j: int| 0 <= j < i ==> addr_byte(#[trigger] bytes@[j]),
            decreases bytes@.len() - i,
        {
            let b = bytes[i];
            let ok = (97 <= b && b <= 122) || (65 <= b && b <= 90) || (48 <= b && b <= 57) || b
                == DOT || b == 95 || b == 126 || b == 45;
            if !ok {
                return Err(());
            }
            i = i + 1;
        }
        Ok(Address { bytes })
    }

    /// The raw bytes of the address.
    pub fn as_bytes(&self) -> (r: &Vec<u8>)
        ensures
            r@ == self@,
    {
        &self.bytes
    }

    /// A fresh copy of the raw bytes.
    pub fn to_bytes(&self) -> (r: Vec<u8>)
        ensures
            r@ == self@,
    {
        let mut out: Vec<u8> = Vec::new();
        let mut i: usize = 0;
        while i < self.bytes.len()
            invariant
                i <= self.bytes@.len(),
                out@ == self.bytes@.take(i as int),
            decreases self.bytes@.len() - i,
        {
            out.push(self.bytes[i]);
            assert(out@ =~= self.bytes@.take(i + 1));
            i = i + 1;
        }
        assert(self.bytes@.take(self.bytes@.len() as int) =~= self.bytes@);
        out
    }

    /// A fresh copy of the address.
    pub fn clone_addr(&self) -> (r: Address)
        ensures
            r@ == self@,
    {
        Address { bytes: self.to_bytes() }
    }

    /// The number of bytes of the address.
    pub fn len(&self) -> (r: usize)
        ensures
            r == self@.len(),
    {
        self.bytes.len()
    }

    /// Do two addresses start with the same scheme label?
    pub fn same_scheme(&self, other: &Address) -> (r: bool)
        requires
            self.wf(),
            other.wf(),
        ensures
            r == (scheme_of(self@) == scheme_of(other@)),
    {
        let a = self.scheme_len();
        let b = other.scheme_len();
        if a != b {
            proof {
                assert(scheme_of(self@).len() == a);
                assert(scheme_of(other@).len() == b);
            }
            return false;
        }
        let mut i: usize = 0;
        while i < a
            invariant
                i <= a,
                a == scheme_end(self@),
                a == scheme_end(other@),
                0 <= a <= self@.len(),
                a <= other@.len(),
                forall|j: int| 0 <= j < i ==> self@[j] == other@[j],
            decreases a - i,
        {
            if self.bytes[i] != other.bytes[i] {
                assert(scheme_of(self@)[i as int] != scheme_of(other@)[i as int]);
                return false;
            }
            i = i + 1;
        }
        proof {
            assert(scheme_of(self@) =~= scheme_of(other@));
        }
        true
    }

    /// The length of the scheme label.
    pub fn scheme_len(&self) -> (r: usize)
        requires
            self.wf(),
        ensures
            r == scheme_end(self@),
            1 <= r <= self@.len(),
    {
        let mut i: usize = 0;
        while i < self.bytes.len()
            invariant
                i <= self.bytes@.len(),
                addr_wf(self@),
                forall|j: int| 0 <= j < i ==> self.bytes@[j] != DOT,
            decreases self.bytes@.len() - i,
        {
            if self.bytes[i] == DOT {
                proof {
                    let s = self@;
                    assert(0 <= i < s.len() && s[i as int] == DOT && (forall|j: int|
                        0 <= j < i ==> s[j] != DOT));
                    assert(exists|x: int|
                        0 <= x < s.len() && s[x] == DOT && (forall|j: int|
                            0 <= j < x ==> s[j] != DOT));
                    let w = scheme_end(s);
                    assert(0 <= w < s.len() && s[w] == DOT && (forall|j: int|
                        0 <= j < w ==> s[j] != DOT));
                    if w < i {
                        assert(s[w] != DOT);
                        assert(false);
                    }
                    if w > i {
                        assert(s[i as int] != DOT);
                        assert(false);
                    }
                    assert(s[0] != DOT);
                }
                return i;
            }
            i = i + 1;
        }
        proof {
            let s = self@;
            if exists|w: int| 0 <= w < s.len() && s[w] == DOT {
                let w = choose|w: int| 0 <= w < s.len() && s[w] == DOT;
                assert(s[w] != DOT);
                assert(false);
            }
        }
        self.bytes.len()
    }
}

} // verus!
