//! Byte-level text helpers: ASCII case folding, equality and the
//! whitespace-separated tokens of CSS Selectors Level 3.

use vstd::prelude::*;
use vstd::utf8::*;

verus! {

/// ASCII lowercase of a byte: `A`..=`Z` become `a`..=`z`, every other byte is unchanged.
pub open spec fn ascii_lower(b: u8) -> u8 {
    if 65 <= b && b <= 90 {
        (b + 32) as u8
    } else {
        b
    }
}

/// Two byte strings are equal once every ASCII letter is folded to lowercase.
pub open spec fn ascii_ci_eq(a: Seq<u8>, b: Seq<u8>) -> bool {
    &&& a.len() == b.len()
    &&& forall|i: int| 0 <= i < a.len() ==> ascii_lower(#[trigger] a[i]) == ascii_lower(b[i])
}

/// Whitespace per CSS Selectors Level 3 section 4: space, tab, line feed,
/// carriage return and form feed.
pub open spec fn is_selector_whitespace(b: u8) -> bool {
    b == 32 || b == 9 || b == 10 || b == 13 || b == 12
}

/// `s[i..j]` is one of the pieces that splitting `s` at every selector
/// whitespace byte yields (empty pieces included).
pub open spec fn is_token(s: Seq<u8>, i: int, j: int) -> bool {
    &&& 0 <= i <= j <= s.len()
    &&& (i == 0 || is_selector_whitespace(s[i - 1]))
    &&& (j == s.len() || is_selector_whitespace(s[j]))
    &&& forall|k: int| i <= k < j ==> !is_selector_whitespace(#[trigger] s[k])
}

/// The ASCII lowercase of one byte.
pub fn to_ascii_lower(b: u8) -> (r: u8)
    ensures
        r == ascii_lower(b),
{
    if 65 <= b && b <= 90 {
        b + 32
    } else {
        b
    }
}

/// Whether `b` is selector whitespace.
pub fn is_whitespace_byte(b: u8) -> (r: bool)
    ensures
        r == is_selector_whitespace(b),
{
    b == 32 || b == 9 || b == 10 || b == 13 || b == 12
}

/// Byte-wise equality of two slices.
pub fn bytes_equal(a: &[u8], b: &[u8]) -> (r: bool)
    ensures
        r == (a@ == b@),
{
    if a.len() != b.len() {
        return false;
    }
    let mut i: usize = 0;
    while i < a.len()
        invariant
            a@.len() == b@.len(),
            i <= a@.len(),
            forall|k: int| 0 <= k < i ==> a@[k] == b@[k],
        decreases a@.len() - i,
    {
        if a[i] != b[i] {
            return false;
        }
        i = i + 1;
    }
    assert(a@ =~= b@);
    true
}

/// Equality of two byte strings up to ASCII case.
pub fn eq_ignore_ascii_case(a: &[u8], b: &[u8]) -> (r: bool)
    ensures
        r == ascii_ci_eq(a@, b@),
{
    if a.len() != b.len() {
        return false;
    }
    let mut i: usize = 0;
    while i < a.len()
        invariant
            a@.len() == b@.len(),
            i <= a@.len(),
            forall|k: int| 0 <= k < i ==> ascii_lower(#[trigger] a@[k]) == ascii_lower(b@[k]),
        decreases a@.len() - i,
    {
        if to_ascii_lower(a[i]) != to_ascii_lower(b[i]) {
            return false;
        }
        i = i + 1;
    }
    true
}

/// Two strings are equal exactly when their UTF-8 encodings are.
pub proof fn lemma_encode_utf8_injective(a: Seq<char>, b: Seq<char>)
    ensures
        (encode_utf8(a) == encode_utf8(b)) == (a == b),
{
    encode_utf8_decode_utf8(a);
    encode_utf8_decode_utf8(b);
}

/// Equality of two string slices.
pub fn str_equal(a: &str, b: &str) -> (r: bool)
    ensures
        r == (a@ == b@),
{
    let r = bytes_equal(a.as_bytes(), b.as_bytes());
    proof {
        lemma_encode_utf8_injective(a@, b@);
    }
    r
}

/// `ascii_ci_eq` is an equivalence relation.
pub proof fn lemma_ascii_ci_eq_equivalence(a: Seq<u8>, b: Seq<u8>, c: Seq<u8>)
    ensures
        ascii_ci_eq(a, a),
        ascii_ci_eq(a, b) ==> ascii_ci_eq(b, a),
        ascii_ci_eq(a, b) && ascii_ci_eq(b, c) ==> ascii_ci_eq(a, c),
{
}

} // verus!
