//! The similarity comparator: the authoritative exact prefix match, and the
//! advisory near-match signal that flags a file whose start is almost, but
//! not quite, the header.

use vstd::prelude::*;
use vstd::arithmetic::div_mod::lemma_multiply_divide_lt;
use vstd::string::StrSliceExecFns;
use vstd::utf8::{valid_utf8, decode_utf8};
use crate::rewrite::{has_header, header_present};

verus! {

/// The edit distance between two character sequences, as the string
/// similarity engine computes it.
pub uninterp spec fn lev_dist(a: Seq<char>, b: Seq<char>) -> nat;

/// Relies on strsim::levenshtein: the edit distance between the two strings,
/// a function of their characters alone.
#[verifier::external_body]
fn levenshtein(a: &str, b: &str) -> (r: usize)
    ensures
        r as nat == lev_dist(a@, b@),
{
    strsim::levenshtein(a, b)
}

/// Relies on core::str::from_utf8: it accepts exactly the valid UTF-8 byte
/// sequences, and the resulting string views the bytes as the characters
/// they encode.
#[verifier::external_body]
fn decode_text(bytes: &Vec<u8>) -> (r: Option<String>)
    ensures
        r is Some <==> valid_utf8(bytes@),
        r matches Some(s) ==> s@ == decode_utf8(bytes@),
{
    match core::str::from_utf8(bytes.as_slice()) {
        Ok(s) => Some(s.to_owned()),
        Err(_) => None,
    }
}

/// Similarity in basis points (hundredths of a percent, rounded half up) for
/// an edit distance `d` between texts whose longer one has `m` characters.
pub open spec fn similarity_bp(d: int, m: int) -> int
    recommends
        1 <= d,
        10 * d < m,
{
    ((m - d) * 10000 + m / 2) / m
}

/// The advisory near-match signal for a header and a file prefix: present
/// exactly when both decode as text and their similarity lies strictly
/// between 90 and 100 percent, that is, the edit distance is not zero but
/// under a tenth of the longer length.
pub open spec fn advisory(header: Seq<u8>, prefix: Seq<u8>) -> Option<int> {
    if valid_utf8(header) && valid_utf8(prefix) {
        let hc = decode_utf8(header);
        let pc = decode_utf8(prefix);
        let m = (if hc.len() >= pc.len() { hc.len() } else { pc.len() }) as int;
        let d = lev_dist(hc, pc) as int;
        if 1 <= d && 10 * d < m {
            Some(similarity_bp(d, m))
        } else {
            None
        }
    } else {
        None
    }
}

/// Compute the advisory near-match signal; binary data yields none, since
/// the signal is purely diagnostic and must never get in the way.
pub fn near_match_advisory(header: &Vec<u8>, prefix: &Vec<u8>) -> (r: Option<u32>)
    ensures
        match r {
            Some(bp) => advisory(header@, prefix@) == Some(bp as int),
            None => advisory(header@, prefix@) is None,
        },
{
    let hs = match decode_text(header) {
        Some(s) => s,
        None => { return None; },
    };
    let ps = match decode_text(prefix) {
        Some(s) => s,
        None => { return None; },
    };
    let hl = hs.as_str().unicode_len();
    let pl = ps.as_str().unicode_len();
    let m: usize = if hl >= pl { hl } else { pl };
    let d = levenshtein(hs.as_str(), ps.as_str());
    let mm: u128 = m as u128;
    let dd: u128 = d as u128;
    if d >= 1 && 10 * dd < mm {
        let num: u128 = (mm - dd) * 10000 + mm / 2;
        let bp: u128 = num / mm;
        proof {
            assert(num < mm * 10001);
            lemma_multiply_divide_lt(num as int, mm as int, 10001);
        }
        Some(bp as u32)
    } else {
        None
    }
}

/// The bytes the comparator reads from the start of a file: header-many, or
/// the whole content where the file is shorter.
pub open spec fn prefix_of(header: Seq<u8>, content: Seq<u8>) -> Seq<u8> {
    if header.len() <= content.len() {
        content.take(header.len() as int)
    } else {
        content
    }
}

/// Copy the comparator's prefix out of the content.
pub fn read_prefix(header: &Vec<u8>, content: &Vec<u8>) -> (r: Vec<u8>)
    ensures
        r@ == prefix_of(header@, content@),
{
    let end: usize = if header.len() <= content.len() {
        header.len()
    } else {
        content.len()
    };
    let mut out: Vec<u8> = Vec::new();
    let mut i: usize = 0;
    while i < end
        invariant
            0 <= i <= end <= content@.len(),
            out@ =~= content@.take(i as int),
        decreases end - i,
    {
        let b = content[i];
        out.push(b);
        i += 1;
    }
    assert(out@ =~= prefix_of(header@, content@));
    out
}

/// What the comparator reports for one file: the authoritative exact answer
/// and the advisory signal.
#[derive(Debug, PartialEq, Eq)]
pub struct HeaderCheck {
    pub present: bool,
    pub advisory: Option<u32>,
}

/// Compare the start of `content` against `header`: byte-for-byte equality
/// decides, and the advisory reports a near match of the prefix read.
pub fn check_header(header: &Vec<u8>, content: &Vec<u8>) -> (r: HeaderCheck)
    ensures
        r.present == has_header(header@, content@),
        match r.advisory {
            Some(bp) => advisory(header@, prefix_of(header@, content@)) == Some(bp as int),
            None => advisory(header@, prefix_of(header@, content@)) is None,
        },
{
    let prefix = read_prefix(header, content);
    let present = header_present(header, content);
    let adv = near_match_advisory(header, &prefix);
    HeaderCheck { present, advisory: adv }
}

} // verus!
