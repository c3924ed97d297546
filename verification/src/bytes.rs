//! Byte strings: equality, lexicographic order and little-endian encoding.

use vstd::prelude::*;
use vstd::arithmetic::div_mod::lemma_div_denominator;
use vstd::arithmetic::power::{pow, lemma_pow0, lemma_pow_adds, lemma_pow1, lemma_pow_positive};

verus! {

/// `a` and `b` agree on their first `i` bytes and differ at byte `i`.
pub open spec fn first_difference(a: Seq<u8>, b: Seq<u8>, i: int) -> bool {
    &&& 0 <= i < a.len()
    &&& i < b.len()
    &&& a[i] != b[i]
    &&& forall|j: int| 0 <= j < i ==> a[j] == b[j]
}

/// Lexicographic order on byte strings of one length: `a` comes no later than
/// `b` when they are equal or `a` is smaller at the first byte where they differ.
pub open spec fn lex_le(a: Seq<u8>, b: Seq<u8>) -> bool {
    a == b || exists|i: int| first_difference(a, b, i) && a[i] < b[i]
}

/// The `i`-th byte of `x`, counted from the least significant one.
pub open spec fn byte_of(x: u64, i: int) -> u8 {
    ((x as int / pow(256, i as nat)) % 256) as u8
}

/// The eight bytes of `x`, least significant first.
pub open spec fn le_bytes(x: u64) -> Seq<u8> {
    Seq::new(8, |i: int| byte_of(x, i))
}

/// Compares two 32-byte strings for equality.
pub fn bytes32_eq(a: &[u8; 32], b: &[u8; 32]) -> (same: bool)
    ensures
        same == (a@ == b@),
{
    let mut i: usize = 0;
    while i < 32
        invariant
            i <= 32,
            forall|j: int| 0 <= j < i ==> a@[j] == b@[j],
        decreases 32 - i,
    {
        if a[i] != b[i] {
            return false;
        }
        i += 1;
    }
    assert(a@ =~= b@);
    true
}

/// Compares two 32-byte strings in lexicographic order.
pub fn bytes32_le(a: &[u8; 32], b: &[u8; 32]) -> (no_later: bool)
    ensures
        no_later == lex_le(a@, b@),
{
    let mut i: usize = 0;
    while i < 32
        invariant
            i <= 32,
            forall|j: int| 0 <= j < i ==> a@[j] == b@[j],
        decreases 32 - i,
    {
        if a[i] < b[i] {
            assert(first_difference(a@, b@, i as int));
            return true;
        }
        if a[i] > b[i] {
            assert forall|k: int| first_difference(a@, b@, k) implies !(a@[k] < b@[k]) by {
                if k < i {
                    assert(a@[k] == b@[k]);
                } else if k > i {
                    assert(a@[i as int] == b@[i as int]);
                }
            }
            return false;
        }
        i += 1;
    }
    assert(a@ =~= b@);
    true
}

/// Encodes `x` as eight bytes, least significant first.
pub fn u64_le_bytes(x: u64) -> (out: [u8; 8])
    ensures
        out@ == le_bytes(x),
{
    let mut out: [u8; 8] = [0u8; 8];
    let mut rest: u64 = x;
    let mut i: usize = 0;
    proof {
        lemma_pow0(256);
    }
    while i < 8
        invariant
            i <= 8,
            rest as int == x as int / pow(256, i as nat),
            forall|j: int| 0 <= j < i ==> out@[j] == byte_of(x, j),
        decreases 8 - i,
    {
        out[i] = (rest % 256) as u8;
        proof {
            lemma_pow_positive(256, i as nat);
            lemma_pow_adds(256, i as nat, 1);
            lemma_pow1(256);
            lemma_div_denominator(x as int, pow(256, i as nat), 256);
        }
        rest = rest / 256;
        i += 1;
    }
    assert(out@ =~= le_bytes(x));
    out
}

/// Two byte strings of one length that differ somewhere differ somewhere
/// first.
pub proof fn lemma_first_difference_exists(a: Seq<u8>, b: Seq<u8>, at: int)
    requires
        a.len() == b.len(),
        0 <= at < a.len(),
        a[at] != b[at],
    ensures
        exists|i: int| first_difference(a, b, i),
    decreases at,
{
    if forall|j: int| 0 <= j < at ==> a[j] == b[j] {
        assert(first_difference(a, b, at));
    } else {
        let j = choose|j: int| 0 <= j < at && a[j] != b[j];
        lemma_first_difference_exists(a, b, j);
    }
}

/// Of two byte strings of one length, one comes no later than the other.
pub proof fn lemma_lex_le_is_total(a: Seq<u8>, b: Seq<u8>)
    requires
        a.len() == b.len(),
    ensures
        lex_le(a, b) || lex_le(b, a),
{
    if a != b {
        assert(!(a =~= b));
        let at = choose|j: int| 0 <= j < a.len() && a[j] != b[j];
        lemma_first_difference_exists(a, b, at);
        let i = choose|i: int| first_difference(a, b, i);
        if a[i] > b[i] {
            assert(first_difference(b, a, i));
        }
    }
}

/// Two byte strings each of which comes no later than the other are equal.
pub proof fn lemma_lex_le_is_antisymmetric(a: Seq<u8>, b: Seq<u8>)
    requires
        lex_le(a, b),
        lex_le(b, a),
    ensures
        a == b,
{
    if a != b {
        let i = choose|i: int| first_difference(a, b, i) && a[i] < b[i];
        let j = choose|j: int| first_difference(b, a, j) && b[j] < a[j];
        if i < j {
            assert(b[i] == a[i]);
        } else if j < i {
            assert(a[j] == b[j]);
        }
    }
}

} // verus!
