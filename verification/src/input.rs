//! Input files as bytes: gzip-compressed ones, named `.vgz` or `.gz` or starting with the
//! gzip magic, are unpacked.
use vstd::prelude::*;

use crate::text::chars_of;

verus! {

/// What reading a gzip stream to the end with `flate2` makes of `data`: the unpacked
/// bytes, or `None` where `data` is not a valid stream.
pub uninterp spec fn gzip_decoded(data: Seq<u8>) -> Option<Seq<u8>>;

/// Unpack a gzip stream: `flate2::read::GzDecoder` over the bytes, read to the end.
/// Claimed: the outcome depends on the bytes alone, and a read error gives `None`.
#[verifier::external_body]
fn gunzip(data: Vec<u8>) -> (unpacked: Option<Vec<u8>>)
    ensures
        match unpacked {
            Some(bytes) => gzip_decoded(data@) == Some(bytes@),
            None => gzip_decoded(data@) is None,
        },
{
    let mut decoder = flate2::read::GzDecoder::new(std::io::Cursor::new(data));
    let mut out: Vec<u8> = Vec::new();
    match std::io::Read::read_to_end(&mut decoder, &mut out) {
        Ok(_) => Some(out),
        Err(_) => None,
    }
}

/// A character's code with ASCII capitals taken as small letters.
pub open spec fn folded(c: char) -> u32 {
    if 65 <= (c as u32) <= 90 {
        (c as u32 + 32) as u32
    } else {
        c as u32
    }
}

/// Whether two texts are equal but for the case of ASCII letters.
pub open spec fn same_ignoring_ascii_case(a: Seq<char>, b: Seq<char>) -> bool {
    a.len() == b.len() && forall|i: int| 0 <= i < a.len() ==> folded(#[trigger] a[i]) == folded(b[i])
}

/// Whether an input is gzip: its extension is `vgz` or `gz` in any case, or its bytes
/// start with `1f 8b`.
pub open spec fn is_gzip_input(extension: Option<Seq<char>>, data: Seq<u8>) -> bool {
    ||| (match extension {
        Some(e) => same_ignoring_ascii_case(e, seq!['v', 'g', 'z']) || same_ignoring_ascii_case(
            e,
            seq!['g', 'z'],
        ),
        None => false,
    })
    ||| (data.len() >= 2 && data[0] == 0x1f && data[1] == 0x8b)
}

/// A file extension as values.
pub open spec fn extension_view(extension: Option<&str>) -> Option<Seq<char>> {
    match extension {
        Some(e) => Some(e@),
        None => None,
    }
}

fn folded_code(c: char) -> (code: u32)
    ensures
        code == folded(c),
{
    let n = c as u32;
    if 65 <= n && n <= 90 {
        n + 32
    } else {
        n
    }
}

fn matches_ignoring_ascii_case(text: &[char], word: &[char]) -> (same: bool)
    ensures
        same == same_ignoring_ascii_case(text@, word@),
{
    if text.len() != word.len() {
        return false;
    }
    let mut index: usize = 0;
    while index < text.len()
        invariant
            text@.len() == word@.len(),
            index <= text@.len(),
            forall|i: int| 0 <= i < index ==> folded(#[trigger] text@[i]) == folded(word@[i]),
        decreases text@.len() - index,
    {
        if folded_code(text[index]) != folded_code(word[index]) {
            return false;
        }
        index += 1;
    }
    true
}

/// Whether an input with this extension and these bytes is gzip.
pub fn is_gzip(extension: Option<&str>, data: &[u8]) -> (gzip: bool)
    ensures
        gzip == is_gzip_input(extension_view(extension), data@),
{
    if let Some(e) = extension {
        let chars = chars_of(e);
        let vgz: Vec<char> = vec!['v', 'g', 'z'];
        let gz: Vec<char> = vec!['g', 'z'];
        proof {
            assert(vgz@ =~= seq!['v', 'g', 'z']);
            assert(gz@ =~= seq!['g', 'z']);
        }
        if matches_ignoring_ascii_case(chars.as_slice(), vgz.as_slice())
            || matches_ignoring_ascii_case(chars.as_slice(), gz.as_slice()) {
            return true;
        }
    }
    data.len() >= 2 && data[0] == 0x1f && data[1] == 0x8b
}

/// The bytes of an input file whose extension (if any) and contents are given: unpacked
/// when it is gzip (`None` when that fails), as they are otherwise.
pub fn decode_input(extension: Option<&str>, data: Vec<u8>) -> (bytes: Option<Vec<u8>>)
    ensures
        is_gzip_input(extension_view(extension), data@) ==> match bytes {
            Some(b) => gzip_decoded(data@) == Some(b@),
            None => gzip_decoded(data@) is None,
        },
        !is_gzip_input(extension_view(extension), data@) ==> (bytes matches Some(b) && b@
            == data@),
{
    if is_gzip(extension, data.as_slice()) {
        gunzip(data)
    } else {
        Some(data)
    }
}

} // verus!
