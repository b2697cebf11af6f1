//! Chunked transfer decoding.
use vstd::prelude::*;

use crate::text::{first_occurrence, find_from, trim, trim_bounds};

verus! {

/// Why a message could not be parsed.
#[derive(Clone, Copy, Debug, PartialEq, Eq, Structural)]
pub enum ParseError {
    /// A request line without exactly three space-separated parts.
    MalformedRequestLine,
    /// A status line with fewer than three parts or a bad status code.
    MalformedStatusLine,
    /// A chunk-size line that is not a hexadecimal number.
    BadChunkSize,
    /// More header lines than the parser accepts.
    HeadersTooLarge,
    /// A `Content-Length` that is not a decimal number.
    BadContentLength,
}

/// The value of a hexadecimal digit, if `b` is one.
pub open spec fn hex_digit(b: u8) -> Option<nat> {
    if 48 <= b && b <= 57 {
        Some((b - 48) as nat)
    } else if 97 <= b && b <= 102 {
        Some((b - 87) as nat)
    } else if 65 <= b && b <= 70 {
        Some((b - 55) as nat)
    } else {
        None
    }
}

/// Every byte of `s` is a hexadecimal digit.
pub open spec fn all_hex(s: Seq<u8>) -> bool {
    forall|i: int| 0 <= i < s.len() ==> #[trigger] hex_digit(s[i]) is Some
}

/// The number that the hexadecimal digits `s` spell.
pub open spec fn hex_value(s: Seq<u8>) -> nat
    decreases s.len(),
{
    if s.len() == 0 {
        0
    } else {
        hex_value(s.drop_last()) * 16 + hex_digit(s.last()).unwrap_or(0)
    }
}

/// The chunk size that a size line gives: the part before any `;`, trimmed,
/// read as hexadecimal, if it is a non-empty run of hex digits that fits a `usize`.
pub open spec fn size_of_line(line: Seq<u8>) -> Option<nat> {
    let t = trim(size_field(line));
    if t.len() > 0 && all_hex(t) && hex_value(t) <= usize::MAX {
        Some(hex_value(t))
    } else {
        None
    }
}

/// The part of a size line before any `;`.
pub open spec fn size_field(line: Seq<u8>) -> Seq<u8> {
    match first_occurrence(line, seq![59u8], 0) {
        Some(k) => line.subrange(0, k),
        None => line,
    }
}

/// What the decoder makes of the bytes received so far.
pub enum ChunkedModel {
    /// The body is complete: its payload, and how many bytes it took.
    Complete(Seq<u8>, nat),
    /// More bytes are needed.
    Incomplete,
    /// A size line is not a number.
    Invalid,
}

/// Reads trailer lines from `pos` until an empty line.
pub open spec fn trailers_end(s: Seq<u8>, pos: int) -> Option<nat>
    decreases s.len() - pos,
{
    if pos < 0 || pos > s.len() {
        None
    } else {
        match first_occurrence(s, seq![10u8], pos) {
            None => None,
            Some(nl) => if nl < pos || nl >= s.len() {
                None
            } else {
                let line = s.subrange(pos, nl + 1);
                if line == seq![13u8, 10u8] || line == seq![10u8] {
                    Some((nl + 1) as nat)
                } else {
                    trailers_end(s, nl + 1)
                }
            },
        }
    }
}

/// Decodes chunks from `pos`, with `acc` the payload so far.
pub open spec fn chunks_from(s: Seq<u8>, pos: int, acc: Seq<u8>) -> ChunkedModel
    decreases s.len() - pos,
{
    if pos < 0 || pos > s.len() {
        ChunkedModel::Incomplete
    } else {
        match first_occurrence(s, seq![10u8], pos) {
            None => ChunkedModel::Incomplete,
            Some(nl) => if nl < pos || nl >= s.len() {
                ChunkedModel::Incomplete
            } else {
                match size_of_line(s.subrange(pos, nl)) {
                None => ChunkedModel::Invalid,
                Some(size) => if size == 0 {
                    match trailers_end(s, nl + 1) {
                        Some(end) => ChunkedModel::Complete(acc, end),
                        None => ChunkedModel::Incomplete,
                    }
                } else if nl + 1 + size + 2 > s.len() {
                    ChunkedModel::Incomplete
                } else {
                    chunks_from(s, nl + 1 + size + 2, acc + s.subrange(nl + 1, nl + 1 + size))
                },
                }
            },
        }
    }
}

/// The chunked body at the start of `s`.
pub open spec fn chunked_body(s: Seq<u8>) -> ChunkedModel {
    chunks_from(s, 0, Seq::empty())
}

/// A decoded chunked body, or the news that more bytes are needed.
pub enum Chunked {
    Complete { body: Vec<u8>, consumed: usize },
    Incomplete,
}

/// The value of hex digit `b`.
fn hex_digit_exec(b: u8) -> (r: Option<u8>)
    ensures
        r matches Some(d) ==> hex_digit(b) == Some(d as nat) && d < 16,
        r is None ==> hex_digit(b) is None,
{
    if 48 <= b && b <= 57 {
        Some(b - 48)
    } else if 97 <= b && b <= 102 {
        Some(b - 87)
    } else if 65 <= b && b <= 70 {
        Some(b - 55)
    } else {
        None
    }
}

/// A longer run of digits never spells a smaller number.
proof fn lemma_hex_grows(s: Seq<u8>, k: int)
    requires
        0 <= k <= s.len(),
    ensures
        hex_value(s.subrange(0, k)) <= hex_value(s),
    decreases s.len() - k,
{
    if k < s.len() {
        lemma_hex_grows(s, k + 1);
        assert(s.subrange(0, k + 1).drop_last() == s.subrange(0, k));
    } else {
        assert(s.subrange(0, k) == s);
    }
}

/// Reads the chunk size in `s[start..end]`, as `size_of_line` does.
fn parse_size(s: &[u8], start: usize, end: usize) -> (r: Option<usize>)
    requires
        start <= end <= s@.len(),
    ensures
        r matches Some(n) ==> size_of_line(s@.subrange(start as int, end as int)) == Some(n as nat),
        r is None ==> size_of_line(s@.subrange(start as int, end as int)) is None,
{
    let ghost line = s@.subrange(start as int, end as int);
    let mut j: usize = start;
    while j < end && s[j] != 59u8
        invariant
            start <= j <= end <= s@.len(),
            line == s@.subrange(start as int, end as int),
            first_occurrence(line, seq![59u8], 0) == first_occurrence(
                line,
                seq![59u8],
                j - start,
            ),
        decreases end - j,
    {
        assert(line.subrange(j - start, j - start + 1) =~= seq![s@[j as int]]);
        assert(seq![s@[j as int]][0] != seq![59u8][0]);
        j += 1;
    }
    let stop: usize = j;
    if j < end {
        assert(line.subrange(j - start, j - start + 1) =~= seq![59u8]);
        assert(first_occurrence(line, seq![59u8], 0) == Some((j - start) as int));
        assert(s@.subrange(start as int, stop as int) =~= line.subrange(0, j - start));
    } else {
        assert(first_occurrence(line, seq![59u8], j - start) is None);
        assert(s@.subrange(start as int, stop as int) =~= line);
    }
    assert(s@.subrange(start as int, stop as int) == size_field(line));
    let (a, b) = trim_bounds(s, start, stop);
    let ghost t = s@.subrange(a as int, b as int);
    assert(t == trim(size_field(line)));
    if a == b {
        assert(size_of_line(line) is None);
        return None;
    }
    let mut value: usize = 0;
    let mut i: usize = a;
    while i < b
        invariant
            a <= i <= b <= s@.len(),
            t == s@.subrange(a as int, b as int),
            t == trim(size_field(s@.subrange(start as int, end as int))),
            forall|q: int| a <= q < i ==> #[trigger] hex_digit(s@[q]) is Some,
            value as nat == hex_value(t.subrange(0, i - a)),
        decreases b - i,
    {
        assert(t.subrange(0, i - a + 1).drop_last() =~= t.subrange(0, i - a));
        match hex_digit_exec(s[i]) {
            None => {
                assert(t[i - a] == s@[i as int]);
                assert(hex_digit(t[i - a]) is None);
                assert(!all_hex(t));
                return None;
            },
            Some(d) => {
                if value > (usize::MAX - d as usize) / 16 {
                    proof {
                        lemma_hex_grows(t, i - a + 1);
                        let v = value as int;
                        let dd = d as int;
                        let m = usize::MAX as int;
                        assert(v > (m - dd) / 16 ==> v * 16 + dd > m) by (nonlinear_arith)
                            requires
                                0 <= dd < 16,
                                m > 16,
                        ;
                        assert(t[i - a] == s@[i as int]);
                    }
                    return None;
                }
                value = value * 16 + d as usize;
            },
        }
        i += 1;
    }
    assert(t.subrange(0, b - a) =~= t);
    assert(all_hex(t));
    Some(value)
}

/// Skips trailer lines from `pos` through the empty line that ends them.
fn skip_trailers(s: &[u8], pos: usize) -> (r: Option<usize>)
    requires
        pos <= s@.len(),
    ensures
        r matches Some(e) ==> trailers_end(s@, pos as int) == Some(e as nat),
        r is None ==> trailers_end(s@, pos as int) is None,
{
    let lf: [u8; 1] = [10u8];
    let n: usize = s.len();
    let mut p: usize = pos;
    loop
        invariant
            p <= s@.len(),
            n == s@.len(),
            lf@ == seq![10u8],
            trailers_end(s@, pos as int) == trailers_end(s@, p as int),
        decreases s@.len() - p,
    {
        match find_from(s, lf.as_slice(), p) {
            None => {
                return None;
            },
            Some(nl) => {
                let ghost line = s@.subrange(p as int, nl + 1);
                assert(s@.subrange(nl as int, nl + 1)[0] == s@[nl as int]);
                if nl > p && nl - p == 1 && s[p] == 13u8 {
                    assert(line =~= seq![13u8, 10u8]);
                    return Some(nl + 1);
                }
                if nl == p {
                    assert(line =~= seq![10u8]);
                    return Some(nl + 1);
                }
                assert(line != seq![13u8, 10u8] && line != seq![10u8]) by {
                    if nl == p + 1 {
                        assert(line[0] == s@[p as int]);
                        assert(line[0] != seq![13u8, 10u8][0]);
                    } else {
                        assert(line.len() > 2);
                    }
                }
                p = nl + 1;
            },
        }
    }
}

/// Decodes a chunked body from the start of `s`: `Incomplete` while bytes are
/// missing, `BadChunkSize` on a size line that is not hexadecimal.
pub fn decode_chunked(s: &[u8]) -> (r: Result<Chunked, ParseError>)
    ensures
        r matches Ok(Chunked::Complete { body, consumed }) ==> chunked_body(s@)
            == ChunkedModel::Complete(body@, consumed as nat),
        r matches Ok(Chunked::Incomplete) ==> chunked_body(s@) == ChunkedModel::Incomplete,
        r is Err ==> r == Err::<Chunked, ParseError>(ParseError::BadChunkSize) && chunked_body(s@)
            == ChunkedModel::Invalid,
{
    let lf: [u8; 1] = [10u8];
    let mut body: Vec<u8> = Vec::new();
    let n: usize = s.len();
    let mut pos: usize = 0;
    loop
        invariant
            pos <= s@.len(),
            n == s@.len(),
            lf@ == seq![10u8],
            chunked_body(s@) == chunks_from(s@, pos as int, body@),
        decreases s@.len() - pos,
    {
        match find_from(s, lf.as_slice(), pos) {
            None => {
                return Ok(Chunked::Incomplete);
            },
            Some(nl) => {
                match parse_size(s, pos, nl) {
                    None => {
                        return Err(ParseError::BadChunkSize);
                    },
                    Some(size) => {
                        if size == 0 {
                            match skip_trailers(s, nl + 1) {
                                Some(end) => {
                                    return Ok(Chunked::Complete { body, consumed: end });
                                },
                                None => {
                                    return Ok(Chunked::Incomplete);
                                },
                            }
                        }
                        if size > s.len() - nl - 1 || s.len() - nl - 1 - size < 2 {
                            return Ok(Chunked::Incomplete);
                        }
                        let ghost before = body@;
                        crate::text::push_range(&mut body, s, nl + 1, nl + 1 + size);
                        pos = nl + 1 + size + 2;
                    },
                }
            },
        }
    }
}

} // verus!
