//! The four metrics, computed over the bytes of a file.
//!
//! Line records follow the convention of buffered line reading: a record ends
//! at each newline byte, a final record without a newline counts when it is
//! not empty, and a record's terminator (`\n`, or `\r\n`) is not part of it.
//! Terminators are single ASCII bytes, so a content is valid UTF-8 exactly
//! when each of its line records is; words and characters are read from
//! records as text, and need that.
use vstd::prelude::*;
use vstd::string::StringSliceAdditionalSpecFns;
use vstd::utf8::*;

verus! {

broadcast use vstd::utf8::encode_utf8_decode_utf8;

pub const NEWLINE: u8 = 10;

pub const CARRIAGE_RETURN: u8 = 13;

/// Number of newline bytes in `b`.
pub open spec fn newline_count(b: Seq<u8>) -> nat
    decreases b.len(),
{
    if b.len() == 0 {
        0
    } else {
        newline_count(b.drop_last()) + if b.last() == NEWLINE { 1nat } else { 0nat }
    }
}

/// Number of line records in `b`: one per newline, and one more for a
/// trailing record that has no newline.
pub open spec fn lines_in(b: Seq<u8>) -> nat {
    newline_count(b) + if b.len() > 0 && b.last() != NEWLINE { 1nat } else { 0nat }
}

/// Whether the byte at `i` belongs to the content of its line record, that
/// is, it is neither a newline nor the carriage return of a `\r\n` pair.
pub open spec fn is_content_byte(b: Seq<u8>, i: int) -> bool {
    &&& b[i] != NEWLINE
    &&& !(b[i] == CARRIAGE_RETURN && i + 1 < b.len() && b[i + 1] == NEWLINE)
}

/// Number of content bytes among the first `n` bytes of `b`.
pub open spec fn content_bytes_before(b: Seq<u8>, n: int) -> nat
    decreases n,
{
    if n <= 0 {
        0
    } else {
        content_bytes_before(b, n - 1) + if is_content_byte(b, n - 1) { 1nat } else { 0nat }
    }
}

/// The sum, over all line records of `b`, of their length in bytes once the
/// terminator is stripped.
pub open spec fn characters_in(b: Seq<u8>) -> nat {
    content_bytes_before(b, b.len() as int)
}

/// The Unicode `White_Space` property, which `char::is_whitespace` tests.
pub open spec fn is_white_space(c: char) -> bool {
    let u = c as u32;
    ||| 0x09 <= u <= 0x0d
    ||| u == 0x20
    ||| u == 0x85
    ||| u == 0xa0
    ||| u == 0x1680
    ||| 0x2000 <= u <= 0x200a
    ||| u == 0x2028
    ||| u == 0x2029
    ||| u == 0x202f
    ||| u == 0x205f
    ||| u == 0x3000
}

/// Number of maximal runs of non-whitespace characters in `cs`: each
/// position that holds a non-whitespace character right after whitespace or
/// at the start begins one.
pub open spec fn words_in(cs: Seq<char>) -> nat
    decreases cs.len(),
{
    if cs.len() == 0 {
        0
    } else {
        let n = cs.len() - 1;
        let starts = !is_white_space(cs[n]) && (n == 0 || is_white_space(cs[n - 1]));
        words_in(cs.drop_last()) + if starts { 1nat } else { 0nat }
    }
}

/// Relies on `std::str::from_utf8`: it succeeds exactly on valid UTF-8, and
/// the text it gives back has the same bytes.
#[verifier::external_body]
fn decode(b: &[u8]) -> (r: Option<&str>)
    ensures
        r is Some <==> valid_utf8(b@),
        r matches Some(s) ==> s.spec_bytes() == b@,
{
    std::str::from_utf8(b).ok()
}

proof fn lemma_newline_count_bound(b: Seq<u8>)
    ensures
        newline_count(b) <= b.len(),
    decreases b.len(),
{
    if b.len() > 0 {
        lemma_newline_count_bound(b.drop_last());
    }
}

/// A valid encoding has at least as many bytes as it has characters.
proof fn lemma_decode_len(b: Seq<u8>)
    requires
        valid_utf8(b),
    ensures
        decode_utf8(b).len() <= b.len(),
    decreases b.len(),
{
    if b.len() > 0 {
        lemma_decode_len(pop_first_scalar(b));
    }
}

/// Executable form of `is_white_space`.
pub fn is_white_space_char(c: char) -> (r: bool)
    ensures
        r == is_white_space(c),
{
    let u = c as u32;
    (0x09 <= u && u <= 0x0d) || u == 0x20 || u == 0x85 || u == 0xa0 || u == 0x1680 || (0x2000
        <= u && u <= 0x200a) || u == 0x2028 || u == 0x2029 || u == 0x202f || u == 0x205f || u
        == 0x3000
}

/// Total number of bytes.
pub fn byte_count(content: &[u8]) -> (r: usize)
    ensures
        r == content@.len(),
{
    content.len()
}

/// Number of line records.
pub fn line_count(content: &[u8]) -> (r: usize)
    ensures
        r == lines_in(content@),
{
    let b = Ghost(content@);
    let len = content.len();
    let mut n: usize = 0;
    let mut i: usize = 0;
    while i < len
        invariant
            b@ == content@,
            len == b@.len(),
            i <= len,
            n <= i,
            n == newline_count(b@.take(i as int)),
        decreases len - i,
    {
        assert(b@.take(i + 1).drop_last() == b@.take(i as int));
        if content[i] == NEWLINE {
            n = n + 1;
        }
        i = i + 1;
    }
    assert(b@.take(len as int) =~= b@);
    if len > 0 && content[len - 1] != NEWLINE {
        assert(n < len) by {
            assert(b@.drop_last() =~= b@.take(len - 1));
            lemma_newline_count_bound(b@.drop_last());
        }
        n = n + 1;
    }
    n
}

/// Sum over the line records of their whitespace-separated words; `None`
/// when the content is not valid UTF-8. Since newline and carriage return are
/// whitespace themselves, this is the number of words of the whole text.
pub fn word_count(content: &[u8]) -> (r: Option<usize>)
    ensures
        r is Some <==> valid_utf8(content@),
        r matches Some(n) ==> n == words_in(decode_utf8(content@)),
{
    match decode(content) {
        None => None,
        Some(text) => {
            let ghost cs = text@;
            let len = content.len();
            proof {
                lemma_decode_len(content@);
            }
            let mut n: usize = 0;
            let mut after_space = true;
            for c in it: text.chars()
                invariant
                    it.seq() == cs,
                    valid_utf8(content@),
                    cs == decode_utf8(content@),
                    cs.len() <= len,
                    len == content@.len(),
                    n <= it.index(),
                    n == words_in(cs.take(it.index() as int)),
                    after_space == (it.index() == 0 || is_white_space(cs[it.index() - 1])),
            {
                assert(cs.take(it.index() + 1).drop_last() == cs.take(it.index() as int));
                let space = is_white_space_char(c);
                if !space && after_space {
                    n = n + 1;
                }
                after_space = space;
            }
            assert(cs.take(cs.len() as int) =~= cs);
            Some(n)
        },
    }
}

/// Sum over the line records of their length in bytes without terminator;
/// `None` when the content is not valid UTF-8.
pub fn char_count(content: &[u8]) -> (r: Option<usize>)
    ensures
        r is Some <==> valid_utf8(content@),
        r matches Some(n) ==> n == characters_in(content@),
{
    if decode(content).is_none() {
        return None;
    }
    let len = content.len();
    let mut n: usize = 0;
    let mut i: usize = 0;
    while i < len
        invariant
            len == content@.len(),
            i <= len,
            n <= i,
            n == content_bytes_before(content@, i as int),
        decreases len - i,
    {
        let byte = content[i];
        let pair_end = byte == CARRIAGE_RETURN && i + 1 < len && content[i + 1] == NEWLINE;
        if byte != NEWLINE && !pair_end {
            n = n + 1;
        }
        i = i + 1;
    }
    Some(n)
}

} // verus!
