//! The `Content-Encoding` chain: which codings a header names, and undoing them
//! outermost first.
use vstd::prelude::*;

use crate::codec::{byte_strings, fields, fields_from, split};
use crate::text::{bytes_equal, first_occurrence, occurs_at, trim, trim_bounds};

verus! {

/// A content coding named in `Content-Encoding`.
#[derive(Clone, Copy, Debug, PartialEq, Eq, Structural)]
pub enum Coding {
    Brotli,
    Gzip,
    Deflate,
    Zstd,
    /// `identity` or an empty token: nothing to undo.
    Identity,
    /// A token that is not recognised: skipped.
    Unknown,
}

/// A body that a decompressor refused.
#[derive(Clone, Copy, Debug, PartialEq, Eq, Structural)]
pub enum DecodeError {
    Brotli,
    Gzip,
    Deflate,
    Zstd,
}

/// What brotli decompression gives for `data`, `None` when it fails.
pub uninterp spec fn brotli_decoded(data: Seq<u8>) -> Option<Seq<u8>>;

/// What gzip decompression gives for `data`, `None` when it fails.
pub uninterp spec fn gzip_decoded(data: Seq<u8>) -> Option<Seq<u8>>;

/// What raw deflate decompression gives for `data`, `None` when it fails.
pub uninterp spec fn deflate_decoded(data: Seq<u8>) -> Option<Seq<u8>>;

/// What zstd decompression gives for `data`, `None` when it fails.
pub uninterp spec fn zstd_decoded(data: Seq<u8>) -> Option<Seq<u8>>;

/// Relies on `brotli::BrotliDecompress`: decompresses a whole brotli stream.
#[verifier::external_body]
pub fn decode_brotli(compressed: &[u8]) -> (r: Result<Vec<u8>, DecodeError>)
    ensures
        r matches Ok(v) ==> brotli_decoded(compressed@) == Some(v@),
        r is Err ==> brotli_decoded(compressed@) is None,
{
    let mut decompressed = Vec::new();
    match brotli::BrotliDecompress(&mut &compressed[..], &mut decompressed) {
        Ok(_) => Ok(decompressed),
        Err(_) => Err(DecodeError::Brotli),
    }
}

/// Relies on `flate2::read::GzDecoder` read to the end: decompresses a gzip stream.
#[verifier::external_body]
pub fn decode_gzip(compressed: &[u8]) -> (r: Result<Vec<u8>, DecodeError>)
    ensures
        r matches Ok(v) ==> gzip_decoded(compressed@) == Some(v@),
        r is Err ==> gzip_decoded(compressed@) is None,
{
    let mut decompressed = Vec::new();
    match std::io::Read::read_to_end(&mut flate2::read::GzDecoder::new(compressed), &mut decompressed) {
        Ok(_) => Ok(decompressed),
        Err(_) => Err(DecodeError::Gzip),
    }
}

/// Relies on `flate2::read::DeflateDecoder` read to the end: decompresses a raw
/// deflate stream.
#[verifier::external_body]
pub fn decode_deflate(compressed: &[u8]) -> (r: Result<Vec<u8>, DecodeError>)
    ensures
        r matches Ok(v) ==> deflate_decoded(compressed@) == Some(v@),
        r is Err ==> deflate_decoded(compressed@) is None,
{
    let mut decompressed = Vec::new();
    match std::io::Read::read_to_end(&mut flate2::read::DeflateDecoder::new(compressed), &mut decompressed) {
        Ok(_) => Ok(decompressed),
        Err(_) => Err(DecodeError::Deflate),
    }
}

/// Relies on `zstd::decode_all`: decompresses every zstd frame of the input.
#[verifier::external_body]
pub fn decode_zstd(compressed: &[u8]) -> (r: Result<Vec<u8>, DecodeError>)
    ensures
        r matches Ok(v) ==> zstd_decoded(compressed@) == Some(v@),
        r is Err ==> zstd_decoded(compressed@) is None,
{
    match zstd::decode_all(compressed) {
        Ok(v) => Ok(v),
        Err(_) => Err(DecodeError::Zstd),
    }
}

/// The coding that a trimmed token names.
pub open spec fn coding_of(t: Seq<u8>) -> Coding {
    if t == seq![98u8, 114] {
        Coding::Brotli
    } else if t == seq![103u8, 122, 105, 112] {
        Coding::Gzip
    } else if t == seq![100u8, 101, 102, 108, 97, 116, 101] {
        Coding::Deflate
    } else if t == seq![122u8, 115, 116, 100] {
        Coding::Zstd
    } else if t == seq![105u8, 100, 101, 110, 116, 105, 116, 121] || t.len() == 0 {
        Coding::Identity
    } else {
        Coding::Unknown
    }
}

/// The codings that a `Content-Encoding` value lists, in the order listed.
pub open spec fn codings_of(value: Seq<u8>) -> Seq<Coding> {
    fields(value, seq![44u8]).map_values(|t: Seq<u8>| coding_of(trim(t)))
}

/// Undoes one coding.
pub open spec fn undo_one(c: Coding, body: Seq<u8>) -> Option<Seq<u8>> {
    match c {
        Coding::Brotli => brotli_decoded(body),
        Coding::Gzip => gzip_decoded(body),
        Coding::Deflate => deflate_decoded(body),
        Coding::Zstd => zstd_decoded(body),
        Coding::Identity => Some(body),
        Coding::Unknown => Some(body),
    }
}

/// Undoes a list of codings, the last listed (the outermost) first.
pub open spec fn undo_all(body: Seq<u8>, cs: Seq<Coding>) -> Option<Seq<u8>>
    decreases cs.len(),
{
    if cs.len() == 0 {
        Some(body)
    } else {
        match undo_one(cs.last(), body) {
            Some(b) => undo_all(b, cs.drop_last()),
            None => None,
        }
    }
}

/// The coding that a trimmed token names.
fn token_coding(t: &[u8]) -> (r: Coding)
    ensures
        r == coding_of(t@),
{
    let br: [u8; 2] = [98u8, 114];
    let gz: [u8; 4] = [103u8, 122, 105, 112];
    let de: [u8; 7] = [100u8, 101, 102, 108, 97, 116, 101];
    let zs: [u8; 4] = [122u8, 115, 116, 100];
    let id: [u8; 8] = [105u8, 100, 101, 110, 116, 105, 116, 121];
    assert(br@ =~= seq![98u8, 114]);
    assert(gz@ =~= seq![103u8, 122, 105, 112]);
    assert(de@ =~= seq![100u8, 101, 102, 108, 97, 116, 101]);
    assert(zs@ =~= seq![122u8, 115, 116, 100]);
    assert(id@ =~= seq![105u8, 100, 101, 110, 116, 105, 116, 121]);
    if bytes_equal(t, br.as_slice()) {
        Coding::Brotli
    } else if bytes_equal(t, gz.as_slice()) {
        Coding::Gzip
    } else if bytes_equal(t, de.as_slice()) {
        Coding::Deflate
    } else if bytes_equal(t, zs.as_slice()) {
        Coding::Zstd
    } else if bytes_equal(t, id.as_slice()) || t.len() == 0 {
        Coding::Identity
    } else {
        Coding::Unknown
    }
}

/// The codings a `Content-Encoding` value lists: split at commas, each token
/// trimmed; in the order listed.
pub fn content_codings(value: &[u8]) -> (r: Vec<Coding>)
    ensures
        r@ == codings_of(value@),
{
    let comma: [u8; 1] = [44u8];
    assert(comma@ =~= seq![44u8]);
    let tokens = split(value, comma.as_slice());
    let ghost tv = byte_strings(tokens@);
    let mut out: Vec<Coding> = Vec::new();
    let mut i: usize = 0;
    while i < tokens.len()
        invariant
            0 <= i <= tokens@.len(),
            tv == byte_strings(tokens@),
            tv == fields(value@, seq![44u8]),
            out@ == tv.subrange(0, i as int).map_values(|t: Seq<u8>| coding_of(trim(t))),
        decreases tokens@.len() - i,
    {
        let tok = &tokens[i];
        let (a, b) = trim_bounds(tok.as_slice(), 0, tok.len());
        assert(tok@.subrange(0, tok@.len() as int) =~= tok@);
        let piece = crate::text::slice_to_vec(tok.as_slice(), a, b);
        let c = token_coding(piece.as_slice());
        out.push(c);
        assert(out@ =~= tv.subrange(0, i + 1).map_values(|t: Seq<u8>| coding_of(trim(t))));
        i += 1;
    }
    assert(tv.subrange(0, i as int) =~= tv);
    out
}

/// Undoes one coding of `body`.
fn undo_coding(c: Coding, body: Vec<u8>) -> (r: Result<Vec<u8>, DecodeError>)
    ensures
        r matches Ok(v) ==> undo_one(c, body@) == Some(v@),
        r is Err ==> undo_one(c, body@) is None,
{
    match c {
        Coding::Brotli => decode_brotli(body.as_slice()),
        Coding::Gzip => decode_gzip(body.as_slice()),
        Coding::Deflate => decode_deflate(body.as_slice()),
        Coding::Zstd => decode_zstd(body.as_slice()),
        Coding::Identity => Ok(body),
        Coding::Unknown => Ok(body),
    }
}

/// Undoes the codings `cs` of `body`, the last listed first.
pub fn undo_codings(body: Vec<u8>, cs: &Vec<Coding>) -> (r: Result<Vec<u8>, DecodeError>)
    ensures
        r matches Ok(v) ==> undo_all(body@, cs@) == Some(v@),
        r is Err ==> undo_all(body@, cs@) is None,
{
    let mut cur = body;
    let mut i: usize = cs.len();
    assert(cs@.subrange(0, cs@.len() as int) =~= cs@);
    while i > 0
        invariant
            i <= cs@.len(),
            undo_all(body@, cs@) == undo_all(cur@, cs@.subrange(0, i as int)),
        decreases i,
    {
        assert(cs@.subrange(0, i as int).drop_last() =~= cs@.subrange(0, i - 1));
        cur = undo_coding(cs[i - 1], cur)?;
        i -= 1;
    }
    Ok(cur)
}

/// Decodes a body along the chain that its `Content-Encoding` value names,
/// outermost (last listed) first; unknown tokens are skipped.
pub fn decode_content(body: Vec<u8>, encoding: &[u8]) -> (r: Result<Vec<u8>, DecodeError>)
    ensures
        r matches Ok(v) ==> undo_all(body@, codings_of(encoding@)) == Some(v@),
        r is Err ==> undo_all(body@, codings_of(encoding@)) is None,
{
    let cs = content_codings(encoding);
    undo_codings(body, &cs)
}

/// A body encoded first with `inner` and then with `outer` (listed `inner,
/// outer`) is decoded by undoing `outer` first and `inner` second.
pub proof fn lemma_chain_order(body: Seq<u8>, inner: Coding, outer: Coding)
    ensures
        undo_all(body, seq![inner, outer]) == match undo_one(outer, body) {
            Some(b) => undo_one(inner, b),
            None => None,
        },
{
    let cs = seq![inner, outer];
    assert(cs.drop_last() =~= seq![inner]);
    assert(seq![inner].drop_last() =~= Seq::<Coding>::empty());
    reveal_with_fuel(undo_all, 3);
}


/// The header value `gzip, br`.
pub open spec fn gzip_br() -> Seq<u8> {
    seq![103u8, 122, 105, 112, 44, 32, 98, 114]
}

/// A body sent with `Content-Encoding: gzip, br` (gzip applied first, then
/// brotli) is decoded by brotli first and gzip second.
pub proof fn lemma_gzip_br_order(body: Seq<u8>)
    ensures
        codings_of(gzip_br()) == seq![Coding::Gzip, Coding::Brotli],
        undo_all(body, codings_of(gzip_br())) == match brotli_decoded(body) {
            Some(b) => gzip_decoded(b),
            None => None,
        },
{
    let s = gzip_br();
    let c = seq![44u8];
    assert forall|k: int| 0 <= k < 8 && k != 4 implies !occurs_at(s, c, k) by {
        assert(s.subrange(k, k + 1)[0] == s[k]);
    }
    assert(s.subrange(4, 5) =~= c);
    reveal_with_fuel(first_occurrence, 6);
    assert(first_occurrence(s, c, 0) == Some(4int));
    assert(first_occurrence(s, c, 5) is None);
    let f0 = s.subrange(0, 4);
    let f1 = s.subrange(5, 8);
    assert(fields_from(s, c, 5) == seq![f1]);
    assert(fields(s, c) =~= seq![f0, f1]);
    assert(f0 =~= seq![103u8, 122, 105, 112]);
    assert(f1 =~= seq![32u8, 98, 114]);
    assert(trim(f0) == f0) by {
        assert(crate::text::trim_start(f0) == f0);
        assert(crate::text::trim_end(f0) == f0);
    }
    let t1 = f1.skip(1);
    assert(t1 =~= seq![98u8, 114]);
    assert(trim(f1) == t1) by {
        assert(crate::text::trim_start(t1) == t1);
        assert(crate::text::trim_start(f1) == t1);
        assert(crate::text::trim_end(t1) == t1);
    }
    assert(coding_of(f0) == Coding::Gzip);
    assert(coding_of(t1) == Coding::Brotli);
    assert(codings_of(s) =~= seq![Coding::Gzip, Coding::Brotli]);
    lemma_chain_order(body, Coding::Gzip, Coding::Brotli);
}


/// The header value `br, gzip`.
pub open spec fn br_gzip() -> Seq<u8> {
    seq![98u8, 114, 44, 32, 103, 122, 105, 112]
}

/// A body sent with `Content-Encoding: br, gzip` (brotli applied first, then
/// gzip) is decoded by gzip first and brotli second.
pub proof fn lemma_br_gzip_order(body: Seq<u8>)
    ensures
        codings_of(br_gzip()) == seq![Coding::Brotli, Coding::Gzip],
        undo_all(body, codings_of(br_gzip())) == match gzip_decoded(body) {
            Some(b) => brotli_decoded(b),
            None => None,
        },
{
    let s = br_gzip();
    let c = seq![44u8];
    assert forall|k: int| 0 <= k < 8 && k != 2 implies !occurs_at(s, c, k) by {
        assert(s.subrange(k, k + 1)[0] == s[k]);
    }
    assert(s.subrange(2, 3) =~= c);
    reveal_with_fuel(first_occurrence, 6);
    assert(first_occurrence(s, c, 0) == Some(2int));
    assert(first_occurrence(s, c, 3) is None);
    let f0 = s.subrange(0, 2);
    let f1 = s.subrange(3, 8);
    assert(fields_from(s, c, 3) == seq![f1]);
    assert(fields(s, c) =~= seq![f0, f1]);
    assert(f0 =~= seq![98u8, 114]);
    assert(f1 =~= seq![32u8, 103, 122, 105, 112]);
    assert(trim(f0) == f0) by {
        assert(crate::text::trim_start(f0) == f0);
        assert(crate::text::trim_end(f0) == f0);
    }
    let t1 = f1.skip(1);
    assert(t1 =~= seq![103u8, 122, 105, 112]);
    assert(trim(f1) == t1) by {
        assert(crate::text::trim_start(t1) == t1);
        assert(crate::text::trim_start(f1) == t1);
        assert(crate::text::trim_end(t1) == t1);
    }
    assert(coding_of(f0) == Coding::Brotli);
    assert(coding_of(t1) == Coding::Gzip);
    assert(codings_of(s) =~= seq![Coding::Brotli, Coding::Gzip]);
    lemma_chain_order(body, Coding::Brotli, Coding::Gzip);
}

} // verus!
