//! Lowercase hexadecimal encoding and decoding of byte strings.
//!
//! Public keys travel as hex text, both in the on-disk schema and in the
//! interchange format, so the codec is verified here once and shared.

use vstd::prelude::*;

verus! {

/// The lowercase hex digit for a nibble value.
pub open spec fn hex_digit(n: int) -> u8 {
    if n < 10 {
        (0x30 + n) as u8
    } else {
        (0x57 + n) as u8
    }
}

/// The lowercase hex encoding of a byte string: two digits per byte,
/// high nibble first.
pub open spec fn hex_of(bs: Seq<u8>) -> Seq<u8>
    decreases bs.len(),
{
    if bs.len() == 0 {
        Seq::empty()
    } else {
        hex_of(bs.drop_last()) + seq![
            hex_digit(bs.last() as int / 16),
            hex_digit(bs.last() as int % 16),
        ]
    }
}

/// Whether a byte is a lowercase hex digit.
pub open spec fn is_hex_digit(c: u8) -> bool {
    (0x30 <= c && c <= 0x39) || (0x61 <= c && c <= 0x66)
}

/// The nibble value of a hex digit.
pub open spec fn hex_val(c: u8) -> int {
    if c <= 0x39 {
        c - 0x30
    } else {
        c - 0x57
    }
}

/// A hex encoding is twice as long as its source and consists of hex digits.
pub proof fn lemma_hex_of_shape(bs: Seq<u8>)
    ensures
        hex_of(bs).len() == 2 * bs.len(),
        forall|k: int| 0 <= k < 2 * bs.len() ==> is_hex_digit(#[trigger] hex_of(bs)[k]),
    decreases bs.len(),
{
    if bs.len() > 0 {
        lemma_hex_of_shape(bs.drop_last());
    }
}

/// Encode bytes as lowercase hex.
pub fn bytes_to_hex(bs: &[u8]) -> (r: Vec<u8>)
    ensures
        r@ == hex_of(bs@),
{
    let mut r: Vec<u8> = Vec::new();
    let mut i: usize = 0;
    while i < bs.len()
        invariant
            0 <= i <= bs@.len(),
            r@ == hex_of(bs@.take(i as int)),
        decreases bs@.len() - i,
    {
        let b = bs[i];
        let hi = b / 16;
        let lo = b % 16;
        r.push(if hi < 10 { 0x30 + hi } else { 0x57 + hi });
        r.push(if lo < 10 { 0x30 + lo } else { 0x57 + lo });
        proof {
            let pre = bs@.take(i as int);
            let cur = bs@.take(i + 1);
            assert(cur.drop_last() =~= pre);
            assert(cur.last() == b);
            assert(r@ =~= hex_of(cur));
        }
        i += 1;
    }
    proof {
        assert(bs@.take(bs@.len() as int) =~= bs@);
    }
    r
}

/// Decode lowercase hex into bytes.
///
/// Returns the unique preimage under `hex_of`, or `None` when the input is
/// not a lowercase hex encoding of any byte string.
pub fn hex_to_bytes(h: &[u8]) -> (r: Option<Vec<u8>>)
    ensures
        match r {
            Some(bs) => h@ == hex_of(bs@),
            None => forall|bs: Seq<u8>| h@ != hex_of(bs),
        },
{
    if h.len() % 2 != 0 {
        proof {
            assert forall|bs: Seq<u8>| h@ != hex_of(bs) by {
                lemma_hex_of_shape(bs);
            }
        }
        return None;
    }
    let mut out: Vec<u8> = Vec::new();
    let mut i: usize = 0;
    while i + 1 < h.len()
        invariant
            0 <= 2 * out@.len() <= h@.len(),
            i == 2 * out@.len(),
            h@.len() % 2 == 0,
            hex_of(out@) == h@.take(i as int),
        decreases h@.len() - i,
    {
        let c_hi = h[i];
        let c_lo = h[i + 1];
        let hi: u8 = if 0x30 <= c_hi && c_hi <= 0x39 {
            c_hi - 0x30
        } else if 0x61 <= c_hi && c_hi <= 0x66 {
            c_hi - 0x57
        } else {
            proof {
                lemma_no_preimage(h@, i as int);
            }
            return None;
        };
        let lo: u8 = if 0x30 <= c_lo && c_lo <= 0x39 {
            c_lo - 0x30
        } else if 0x61 <= c_lo && c_lo <= 0x66 {
            c_lo - 0x57
        } else {
            proof {
                lemma_no_preimage(h@, i + 1);
            }
            return None;
        };
        let b = hi * 16 + lo;
        proof {
            let pre = out@;
            let cur = out@.push(b);
            assert(cur.drop_last() =~= pre);
            assert(cur.last() == b);
            assert(b as int / 16 == hi as int && b as int % 16 == lo as int);
            assert(hex_digit(hi as int) == c_hi && hex_digit(lo as int) == c_lo);
            assert(hex_of(cur) =~= h@.take(i + 2));
        }
        out.push(b);
        i += 2;
    }
    proof {
        assert(i == h@.len());
        assert(h@.take(i as int) =~= h@);
    }
    Some(out)
}

/// If position `k` of `h` holds a byte that is not a lowercase hex digit,
/// then `h` encodes no byte string.
proof fn lemma_no_preimage(h: Seq<u8>, k: int)
    requires
        0 <= k < h.len(),
        !is_hex_digit(h[k]),
    ensures
        forall|bs: Seq<u8>| h != hex_of(bs),
{
    assert forall|bs: Seq<u8>| h != hex_of(bs) by {
        lemma_hex_of_shape(bs);
        if h == hex_of(bs) {
            assert(is_hex_digit(hex_of(bs)[k]));
        }
    }
}

} // verus!
