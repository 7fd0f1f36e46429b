//! BLS public keys, the identity under which signing history is recorded.

use vstd::prelude::*;

use crate::hex::{bytes_to_hex, hex_of, hex_to_bytes};

verus! {

/// Length in bytes of a BLS public key.
pub const PUBLIC_KEY_BYTES_LEN: usize = 48;

/// A BLS public key, held as its 48-byte compressed encoding.
///
/// The store never interprets the bytes; it only compares them, orders them,
/// and renders them as hex for the interchange format.
#[derive(Clone, Copy, Debug, PartialEq, Eq, Hash)]
pub struct PublicKey {
    pub bytes: [u8; 48],
}

impl View for PublicKey {
    type V = Seq<u8>;

    open spec fn view(&self) -> Seq<u8> {
        self.bytes@
    }
}

/// Strict lexicographic order on byte strings.
pub open spec fn lex_lt(a: Seq<u8>, b: Seq<u8>) -> bool
    decreases a.len(),
{
    b.len() > 0 && (a.len() == 0 || a[0] < b[0] || (a[0] == b[0] && lex_lt(
        a.drop_first(),
        b.drop_first(),
    )))
}

/// `lex_lt` ignores a common prefix.
proof fn lemma_lex_lt_skip(a: Seq<u8>, b: Seq<u8>, i: int)
    requires
        0 <= i <= a.len(),
        0 <= i <= b.len(),
        forall|j: int| 0 <= j < i ==> a[j] == b[j],
    ensures
        lex_lt(a, b) == lex_lt(a.skip(i), b.skip(i)),
    decreases i,
{
    if i > 0 {
        assert(a.len() > 0 && b.len() > 0);
        assert(a[0] == b[0]);
        assert(a.drop_first() =~= a.skip(1));
        assert(b.drop_first() =~= b.skip(1));
        lemma_lex_lt_skip(a.skip(1), b.skip(1), i - 1);
        assert(a.skip(1).skip(i - 1) =~= a.skip(i));
        assert(b.skip(1).skip(i - 1) =~= b.skip(i));
    } else {
        assert(a.skip(0) =~= a);
        assert(b.skip(0) =~= b);
    }
}

/// Equal-length byte strings are ordered by their first difference;
/// equal strings are not ordered.
proof fn lemma_lex_lt_at(a: Seq<u8>, b: Seq<u8>, i: int)
    requires
        0 <= i < a.len(),
        i < b.len(),
        forall|j: int| 0 <= j < i ==> a[j] == b[j],
    ensures
        a[i] < b[i] ==> lex_lt(a, b),
        a[i] > b[i] ==> !lex_lt(a, b),
{
    lemma_lex_lt_skip(a, b, i);
    assert(a.skip(i).len() > 0 && b.skip(i).len() > 0);
    assert(a.skip(i)[0] == a[i] && b.skip(i)[0] == b[i]);
}

/// Strict lexicographic order is transitive.
pub proof fn lemma_lex_lt_trans(a: Seq<u8>, b: Seq<u8>, c: Seq<u8>)
    requires
        lex_lt(a, b),
        lex_lt(b, c),
    ensures
        lex_lt(a, c),
    decreases a.len(),
{
    if a.len() > 0 {
        if a[0] == b[0] && b[0] == c[0] {
            lemma_lex_lt_trans(a.drop_first(), b.drop_first(), c.drop_first());
        }
    }
}

/// On equal-length byte strings, strict lexicographic order is a strict
/// total order.
pub proof fn lemma_lex_trichotomy(a: Seq<u8>, b: Seq<u8>)
    requires
        a.len() == b.len(),
    ensures
        lex_lt(a, b) || lex_lt(b, a) || a == b,
        !(lex_lt(a, b) && lex_lt(b, a)),
        lex_lt(a, b) ==> a != b,
    decreases a.len(),
{
    if a.len() == 0 {
        assert(a =~= b);
    } else {
        if a[0] == b[0] {
            lemma_lex_trichotomy(a.drop_first(), b.drop_first());
            if a.drop_first() == b.drop_first() {
                assert forall|k: int| 0 <= k < a.len() implies a[k] == b[k] by {
                    if k > 0 {
                        assert(a.drop_first()[k - 1] == b.drop_first()[k - 1]);
                    }
                }
                assert(a =~= b);
            }
            if a == b {
                assert(a.drop_first() =~= b.drop_first());
            }
        } else {
            assert(a[0] != b[0]);
            if a == b {
                assert(a[0] == b[0]);
            }
        }
    }
}

impl PublicKey {
    /// Wrap raw bytes as a public key.
    pub fn from_bytes(bytes: [u8; 48]) -> (r: Self)
        ensures
            r@ == bytes@,
    {
        PublicKey { bytes }
    }

    /// Byte-for-byte equality of two public keys.
    pub fn eq_bytes(&self, other: &PublicKey) -> (r: bool)
        ensures
            r == (self@ == other@),
    {
        let mut i: usize = 0;
        while i < 48
            invariant
                0 <= i <= 48,
                forall|j: int| 0 <= j < i ==> self.bytes@[j] == other.bytes@[j],
            decreases 48 - i,
        {
            if self.bytes[i] != other.bytes[i] {
                return false;
            }
            i += 1;
        }
        proof {
            assert(self@ =~= other@);
        }
        true
    }

    /// Strict lexicographic comparison of two public keys.
    pub fn lex_lt(&self, other: &PublicKey) -> (r: bool)
        ensures
            r == lex_lt(self@, other@),
    {
        let mut i: usize = 0;
        while i < 48
            invariant
                0 <= i <= 48,
                forall|j: int| 0 <= j < i ==> self.bytes@[j] == other.bytes@[j],
            decreases 48 - i,
        {
            if self.bytes[i] < other.bytes[i] {
                proof {
                    lemma_lex_lt_at(self@, other@, i as int);
                }
                return true;
            }
            if self.bytes[i] > other.bytes[i] {
                proof {
                    lemma_lex_lt_at(self@, other@, i as int);
                }
                return false;
            }
            i += 1;
        }
        proof {
            lemma_lex_lt_skip(self@, other@, 48);
            assert(self@.skip(48) =~= Seq::<u8>::empty());
        }
        false
    }

    /// Render the key as 96 lowercase hex digits.
    pub fn to_hex(&self) -> (r: Vec<u8>)
        ensures
            r@ == hex_of(self@),
    {
        bytes_to_hex(self.bytes.as_slice())
    }

    /// Parse a key from 96 lowercase hex digits.
    pub fn from_hex(h: &[u8]) -> (r: Option<PublicKey>)
        ensures
            match r {
                Some(pk) => h@ == hex_of(pk@),
                None => forall|pk: Seq<u8>| pk.len() == 48 ==> h@ != hex_of(pk),
            },
    {
        match hex_to_bytes(h) {
            Some(bs) => {
                if bs.len() == 48 {
                    let mut bytes = [0u8; 48];
                    let mut i: usize = 0;
                    while i < 48
                        invariant
                            0 <= i <= 48,
                            bs@.len() == 48,
                            forall|j: int| 0 <= j < i ==> bytes@[j] == bs@[j],
                        decreases 48 - i,
                    {
                        bytes[i] = bs[i];
                        i += 1;
                    }
                    proof {
                        assert(bytes@ =~= bs@);
                    }
                    Some(PublicKey { bytes })
                } else {
                    proof {
                        assert forall|pk: Seq<u8>| pk.len() == 48 implies h@ != hex_of(pk) by {
                            crate::hex::lemma_hex_of_shape(pk);
                            crate::hex::lemma_hex_of_shape(bs@);
                            if h@ == hex_of(pk) {
                                lemma_hex_of_injective(bs@, pk);
                            }
                        }
                    }
                    None
                }
            },
            None => None,
        }
    }
}

/// Two byte strings with the same hex encoding are equal.
pub proof fn lemma_hex_of_injective(a: Seq<u8>, b: Seq<u8>)
    requires
        hex_of(a) == hex_of(b),
    ensures
        a == b,
    decreases a.len(),
{
    crate::hex::lemma_hex_of_shape(a);
    crate::hex::lemma_hex_of_shape(b);
    if a.len() == 0 {
        assert(a =~= b);
    } else {
        let ha = hex_of(a.drop_last());
        let hb = hex_of(b.drop_last());
        crate::hex::lemma_hex_of_shape(a.drop_last());
        crate::hex::lemma_hex_of_shape(b.drop_last());
        assert(ha =~= hb) by {
            assert forall|k: int| 0 <= k < ha.len() implies ha[k] == hb[k] by {
                assert(hex_of(a)[k] == ha[k]);
                assert(hex_of(b)[k] == hb[k]);
            }
        }
        lemma_hex_of_injective(a.drop_last(), b.drop_last());
        let la = a.last();
        let lb = b.last();
        let n = hex_of(a).len();
        assert(hex_of(a)[n - 2] == crate::hex::hex_digit(la as int / 16));
        assert(hex_of(a)[n - 1] == crate::hex::hex_digit(la as int % 16));
        assert(hex_of(b)[n - 2] == crate::hex::hex_digit(lb as int / 16));
        assert(hex_of(b)[n - 1] == crate::hex::hex_digit(lb as int % 16));
        assert(la as int / 16 == lb as int / 16 && la as int % 16 == lb as int % 16);
        assert(la == lb);
        assert forall|k: int| 0 <= k < a.len() implies a[k] == b[k] by {
            if k < a.len() - 1 {
                assert(a.drop_last()[k] == b.drop_last()[k]);
            }
        }
        assert(a =~= b);
    }
}

} // verus!
