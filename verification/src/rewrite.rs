//! The header rewriter: detecting a header at the start of a byte buffer,
//! splicing it in, and stripping it off.

use vstd::prelude::*;

verus! {

/// The file content begins with the full header.
pub open spec fn has_header(header: Seq<u8>, content: Seq<u8>) -> bool {
    header.len() <= content.len() && content.take(header.len() as int) == header
}

/// Decide whether `content` starts with the whole of `header`.
pub fn header_present(header: &Vec<u8>, content: &Vec<u8>) -> (r: bool)
    ensures
        r == has_header(header@, content@),
{
    if header.len() > content.len() {
        assert(!has_header(header@, content@));
        return false;
    }
    let n = header.len();
    let mut i: usize = 0;
    while i < n
        invariant
            n == header@.len() <= content@.len(),
            0 <= i <= n,
            forall|j: int| 0 <= j < i ==> header@[j] == content@[j],
        decreases n - i,
    {
        if header[i] != content[i] {
            assert(content@.take(n as int)[i as int] != header@[i as int]);
            return false;
        }
        i += 1;
    }
    assert(content@.take(n as int) =~= header@);
    true
}

/// What splicing the header in produces: the header followed by the original
/// bytes.
pub open spec fn spliced(header: Seq<u8>, content: Seq<u8>) -> Seq<u8> {
    header + content
}

/// What stripping the header off produces: the bytes left after discarding
/// header-many bytes from the front, or nothing when fewer are available.
pub open spec fn stripped(header: Seq<u8>, content: Seq<u8>) -> Seq<u8> {
    if header.len() <= content.len() {
        content.skip(header.len() as int)
    } else {
        Seq::empty()
    }
}

/// Write the header, then the whole original content, into a fresh buffer.
pub fn splice_header(header: &Vec<u8>, content: &Vec<u8>) -> (r: Vec<u8>)
    ensures
        r@ == spliced(header@, content@),
{
    let mut out: Vec<u8> = Vec::new();
    out.extend_from_slice(header.as_slice());
    out.extend_from_slice(content.as_slice());
    assert(out@ =~= header@ + content@);
    out
}

/// Copy the content into a fresh buffer, discarding up to header-many bytes
/// from the front; a content shorter than the header is tolerated and yields
/// an empty buffer.
pub fn strip_header(header: &Vec<u8>, content: &Vec<u8>) -> (r: Vec<u8>)
    ensures
        r@ == stripped(header@, content@),
{
    let start: usize = if header.len() <= content.len() {
        header.len()
    } else {
        content.len()
    };
    let mut out: Vec<u8> = Vec::new();
    let mut i: usize = start;
    while i < content.len()
        invariant
            start <= i <= content@.len(),
            out@ =~= content@.subrange(start as int, i as int),
        decreases content@.len() - i,
    {
        let b = content[i];
        out.push(b);
        i += 1;
    }
    assert(out@ =~= stripped(header@, content@));
    out
}

/// Stripping from content no longer than the header leaves nothing behind.
pub proof fn lemma_strip_short(header: Seq<u8>, content: Seq<u8>)
    requires
        content.len() <= header.len(),
    ensures
        stripped(header, content).len() == 0,
{
}

} // verus!
