//! Validation of fungible-token identifiers.
//!
//! An identifier is a ticker of 3 to 10 uppercase alphanumeric bytes, a dash,
//! and a 6-byte lowercase alphanumeric tag.

use vstd::prelude::*;

verus! {

/// An uppercase letter or a digit: a ticker byte.
pub open spec fn is_ticker_byte(b: u8) -> bool {
    (65 <= b <= 90) || (48 <= b <= 57)
}

/// A lowercase letter or a digit: a tag byte.
pub open spec fn is_tag_byte(b: u8) -> bool {
    (97 <= b <= 122) || (48 <= b <= 57)
}

/// A well-formed token identifier: `TICKER-tag` with a ticker of 3 to 10
/// ticker bytes, a dash (byte 45), and exactly 6 tag bytes.
pub open spec fn valid_token_identifier(s: Seq<u8>) -> bool {
    &&& 10 <= s.len() <= 17
    &&& s[s.len() - 7] == 45
    &&& forall|i: int| 0 <= i < s.len() - 7 ==> is_ticker_byte(#[trigger] s[i])
    &&& forall|i: int| s.len() - 6 <= i < s.len() ==> is_tag_byte(#[trigger] s[i])
}

/// Checks whether `v` is a well-formed token identifier.
pub fn is_valid_token_identifier(v: &Vec<u8>) -> (r: bool)
    ensures
        r == valid_token_identifier(v@),
{
    let n = v.len();
    if n < 10 || n > 17 {
        return false;
    }
    if v[n - 7] != 45 {
        return false;
    }
    let mut i: usize = 0;
    while i < n - 7
        invariant
            i <= n - 7,
            n == v@.len(),
            10 <= n <= 17,
            forall|j: int| 0 <= j < i ==> is_ticker_byte(#[trigger] v@[j]),
        decreases n - 7 - i,
    {
        let b = v[i];
        if !((65 <= b && b <= 90) || (48 <= b && b <= 57)) {
            return false;
        }
        i += 1;
    }
    let mut j: usize = n - 6;
    while j < n
        invariant
            n - 6 <= j <= n,
            n == v@.len(),
            10 <= n <= 17,
            forall|k: int| n - 6 <= k < j ==> is_tag_byte(#[trigger] v@[k]),
        decreases n - j,
    {
        let b = v[j];
        if !((97 <= b && b <= 122) || (48 <= b && b <= 57)) {
            return false;
        }
        j += 1;
    }
    true
}

} // verus!
