//! HTTP/1.x message heads, header sets, body framing, serialization and the
//! content-coding chain.
use vstd::prelude::*;

use crate::chunked::ParseError;
use crate::text::{
    eq_ignore_case, equal_ignore_case, find_from, first_occurrence, lower,
    lower_byte_exec, push_all, slice_to_vec, copy_bytes, trim, trim_bounds,
};

verus! {

/// One header line: a name and a value.
pub struct Header {
    pub name: Vec<u8>,
    pub value: Vec<u8>,
}

pub open spec fn header_view(h: Header) -> (Seq<u8>, Seq<u8>) {
    (h.name@, h.value@)
}

/// The pairs that a header list holds, in order.
pub open spec fn headers_view(v: Seq<Header>) -> Seq<(Seq<u8>, Seq<u8>)> {
    v.map_values(|h: Header| header_view(h))
}

/// The first position whose name equals `name`, ignoring ASCII case.
pub open spec fn name_index(hs: Seq<(Seq<u8>, Seq<u8>)>, name: Seq<u8>) -> Option<int>
    decreases hs.len(),
{
    if hs.len() == 0 {
        None
    } else {
        match name_index(hs.drop_last(), name) {
            Some(i) => Some(i),
            None => if eq_ignore_case(hs.last().0, name) {
                Some(hs.len() - 1)
            } else {
                None
            },
        }
    }
}

/// The value stored under `name`, if any.
pub open spec fn header_value(hs: Seq<(Seq<u8>, Seq<u8>)>, name: Seq<u8>) -> Option<Seq<u8>> {
    match name_index(hs, name) {
        Some(i) => Some(hs[i].1),
        None => None,
    }
}

/// `hs` with the value under `name` replaced, or the pair appended.
pub open spec fn with_header(hs: Seq<(Seq<u8>, Seq<u8>)>, name: Seq<u8>, value: Seq<u8>) -> Seq<
    (Seq<u8>, Seq<u8>),
> {
    match name_index(hs, name) {
        Some(i) => hs.update(i, (hs[i].0, value)),
        None => hs.push((name, value)),
    }
}

/// `hs` without any pair named `name`, ignoring ASCII case.
pub open spec fn without_header(hs: Seq<(Seq<u8>, Seq<u8>)>, name: Seq<u8>) -> Seq<
    (Seq<u8>, Seq<u8>),
>
    decreases hs.len(),
{
    if hs.len() == 0 {
        hs
    } else {
        let rest = without_header(hs.drop_last(), name);
        if eq_ignore_case(hs.last().0, name) {
            rest
        } else {
            rest.push(hs.last())
        }
    }
}

/// `name_index` points at a pair of that name, and `None` means there is none.
pub proof fn lemma_name_index_bounds(hs: Seq<(Seq<u8>, Seq<u8>)>, name: Seq<u8>)
    ensures
        name_index(hs, name) matches Some(i) ==> 0 <= i < hs.len() && eq_ignore_case(
            hs[i].0,
            name,
        ),
        name_index(hs, name) is None ==> forall|j: int|
            0 <= j < hs.len() ==> !eq_ignore_case(#[trigger] hs[j].0, name),
    decreases hs.len(),
{
    if hs.len() > 0 {
        lemma_name_index_bounds(hs.drop_last(), name);
        assert forall|j: int| 0 <= j < hs.len() - 1 implies #[trigger] hs[j] == hs.drop_last()[j] by {}
    }
}

/// The position of `name` in `headers`, ignoring ASCII case.
pub fn find_header(headers: &Vec<Header>, name: &[u8]) -> (r: Option<usize>)
    ensures
        r matches Some(i) ==> name_index(headers_view(headers@), name@) == Some(i as int) && i
            < headers@.len(),
        r is None ==> name_index(headers_view(headers@), name@) is None,
{
    let ghost hs = headers_view(headers@);
    let mut i: usize = 0;
    while i < headers.len()
        invariant
            0 <= i <= headers@.len(),
            hs == headers_view(headers@),
            name_index(hs.subrange(0, i as int), name@) is None,
        decreases headers@.len() - i,
    {
        assert(hs.subrange(0, i + 1).drop_last() =~= hs.subrange(0, i as int));
        if equal_ignore_case(headers[i].name.as_slice(), name) {
            assert(name_index(hs.subrange(0, i + 1), name@) == Some(i as int));
            proof {
                lemma_name_index_prefix(hs, name@, i + 1);
            }
            return Some(i);
        }
        i += 1;
    }
    assert(hs.subrange(0, i as int) =~= hs);
    None
}

/// Once a prefix holds `name`, the whole list finds it at the same place.
proof fn lemma_name_index_prefix(hs: Seq<(Seq<u8>, Seq<u8>)>, name: Seq<u8>, k: int)
    requires
        0 <= k <= hs.len(),
        name_index(hs.subrange(0, k), name) is Some,
    ensures
        name_index(hs, name) == name_index(hs.subrange(0, k), name),
    decreases hs.len() - k,
{
    if k < hs.len() {
        assert(hs.subrange(0, k + 1).drop_last() =~= hs.subrange(0, k));
        lemma_name_index_prefix(hs, name, k + 1);
    } else {
        assert(hs.subrange(0, k) =~= hs);
    }
}

/// The value under `name`, ignoring ASCII case.
pub fn get_header(headers: &Vec<Header>, name: &[u8]) -> (r: Option<Vec<u8>>)
    ensures
        r matches Some(v) ==> header_value(headers_view(headers@), name@) == Some(v@),
        r is None ==> header_value(headers_view(headers@), name@) is None,
{
    match find_header(headers, name) {
        Some(i) => Some(copy_bytes(&headers[i].value)),
        None => None,
    }
}

/// Stores `value` under `name`: an existing pair of that name keeps its name and
/// takes the new value; otherwise the pair is appended.
pub fn set_header(headers: &mut Vec<Header>, name: &[u8], value: Vec<u8>)
    ensures
        headers_view(final(headers)@) == with_header(headers_view(old(headers)@), name@, value@),
{
    match find_header(headers, name) {
        Some(i) => {
            let ghost before = headers_view(headers@);
            let n = copy_bytes(&headers[i].name);
            let ghost vv = value@;
            headers.set(i, Header { name: n, value });
            assert(headers_view(headers@) =~= before.update(i as int, (before[i as int].0, vv)));
        },
        None => {
            let ghost before = headers_view(headers@);
            let ghost vv = value@;
            headers.push(Header { name: slice_to_vec(name, 0, name.len()), value });
            assert(name@.subrange(0, name@.len() as int) =~= name@);
            assert(headers_view(headers@) =~= before.push((name@, vv)));
        },
    }
}

/// Drops every pair named `name`, ignoring ASCII case.
pub fn remove_header(headers: &mut Vec<Header>, name: &[u8])
    ensures
        headers_view(final(headers)@) == without_header(headers_view(old(headers)@), name@),
{
    let ghost hs = headers_view(headers@);
    let mut kept: Vec<Header> = Vec::new();
    let mut i: usize = 0;
    while i < headers.len()
        invariant
            0 <= i <= headers@.len(),
            hs == headers_view(headers@),
            headers_view(kept@) == without_header(hs.subrange(0, i as int), name@),
        decreases headers@.len() - i,
    {
        assert(hs.subrange(0, i + 1).drop_last() =~= hs.subrange(0, i as int));
        if !equal_ignore_case(headers[i].name.as_slice(), name) {
            let ghost before = headers_view(kept@);
            let h = Header { name: copy_bytes(&headers[i].name), value: copy_bytes(&headers[i].value) };
            kept.push(h);
            assert(headers_view(kept@) =~= before.push(hs[i as int]));
        }
        i += 1;
    }
    assert(hs.subrange(0, i as int) =~= hs);
    *headers = kept;
}

/// The pieces of `s` between occurrences of `pat`, from `start` on.
pub open spec fn fields_from(s: Seq<u8>, pat: Seq<u8>, start: int) -> Seq<Seq<u8>>
    decreases s.len() - start,
{
    if start < 0 || start > s.len() || pat.len() == 0 {
        Seq::empty()
    } else {
        match first_occurrence(s, pat, start) {
            Some(k) => if k < start || k + pat.len() > s.len() {
                Seq::empty()
            } else {
                seq![s.subrange(start, k)] + fields_from(s, pat, k + pat.len())
            },
            None => seq![s.subrange(start, s.len() as int)],
        }
    }
}

/// The pieces of `s` between occurrences of `pat` (as `str::split` gives them).
pub open spec fn fields(s: Seq<u8>, pat: Seq<u8>) -> Seq<Seq<u8>> {
    fields_from(s, pat, 0)
}

pub open spec fn byte_strings(v: Seq<Vec<u8>>) -> Seq<Seq<u8>> {
    v.map_values(|x: Vec<u8>| x@)
}

/// Splits `s` at every occurrence of `pat`.
pub fn split(s: &[u8], pat: &[u8]) -> (r: Vec<Vec<u8>>)
    requires
        pat@.len() > 0,
    ensures
        byte_strings(r@) == fields(s@, pat@),
{
    let mut out: Vec<Vec<u8>> = Vec::new();
    let mut start: usize = 0;
    let n: usize = s.len();
    loop
        invariant
            start <= s@.len(),
            n == s@.len(),
            pat@.len() > 0,
            byte_strings(out@) + fields_from(s@, pat@, start as int) == fields(s@, pat@),
        decreases s@.len() - start,
    {
        let ghost before = byte_strings(out@);
        match find_from(s, pat, start) {
            Some(k) => {
                let piece = slice_to_vec(s, start, k);
                out.push(piece);
                assert(byte_strings(out@) =~= before.push(s@.subrange(start as int, k as int)));
                assert(fields_from(s@, pat@, start as int) == seq![s@.subrange(start as int, k as int)]
                    + fields_from(s@, pat@, k + pat@.len()));
                assert(byte_strings(out@) + fields_from(s@, pat@, k + pat@.len()) =~= before
                    + fields_from(s@, pat@, start as int));
                start = k + pat.len();
            },
            None => {
                let piece = slice_to_vec(s, start, n);
                out.push(piece);
                assert(byte_strings(out@) =~= before + fields_from(s@, pat@, start as int));
                return out;
            },
        }
    }
}

/// A line with one trailing carriage return dropped.
pub open spec fn strip_cr(line: Seq<u8>) -> Seq<u8> {
    if line.len() > 0 && line.last() == 13u8 {
        line.drop_last()
    } else {
        line
    }
}

/// The lines of a message head: split at line feeds, carriage returns dropped.
pub open spec fn head_lines(head: Seq<u8>) -> Seq<Seq<u8>> {
    fields(head, seq![10u8]).map_values(|l: Seq<u8>| strip_cr(l))
}

/// A header line splits at its first `": "` into a name and a value.
pub open spec fn header_of_line(line: Seq<u8>) -> Option<(Seq<u8>, Seq<u8>)> {
    match first_occurrence(line, seq![58u8, 32u8], 0) {
        Some(k) => Some((line.subrange(0, k), line.subrange(k + 2, line.len() as int))),
        None => None,
    }
}

/// The header set that header lines give, each stored as `with_header` does;
/// lines without `": "` are ignored.
pub open spec fn headers_of_lines(lines: Seq<Seq<u8>>) -> Seq<(Seq<u8>, Seq<u8>)>
    decreases lines.len(),
{
    if lines.len() == 0 {
        Seq::empty()
    } else {
        let hs = headers_of_lines(lines.drop_last());
        match header_of_line(lines.last()) {
            Some(p) => with_header(hs, p.0, p.1),
            None => hs,
        }
    }
}

/// The lines of a head after the first, up to the first empty one.
pub open spec fn header_block(lines: Seq<Seq<u8>>) -> Seq<Seq<u8>>
    decreases lines.len(),
{
    if lines.len() <= 1 {
        Seq::empty()
    } else if lines[1].len() == 0 {
        Seq::empty()
    } else {
        seq![lines[1]] + header_block(lines.skip(1))
    }
}

/// Parses one header line.
fn parse_header_line(line: &[u8]) -> (r: Option<Header>)
    ensures
        r matches Some(h) ==> header_of_line(line@) == Some(header_view(h)),
        r is None ==> header_of_line(line@) is None,
{
    let sep: [u8; 2] = [58u8, 32u8];
    assert(sep@ =~= seq![58u8, 32u8]);
    let n: usize = line.len();
    match find_from(line, sep.as_slice(), 0) {
        Some(k) => Some(
            Header { name: slice_to_vec(line, 0, k), value: slice_to_vec(line, k + 2, n) },
        ),
        None => None,
    }
}

/// Builds the header set of `lines`: each is split at its first `": "`; a later
/// line of the same name replaces the value of an earlier one.
pub fn parse_headers(lines: &[Vec<u8>]) -> (r: Vec<Header>)
    ensures
        headers_view(r@) == headers_of_lines(byte_strings(lines@)),
{
    let ghost ls = byte_strings(lines@);
    let mut out: Vec<Header> = Vec::new();
    let mut i: usize = 0;
    while i < lines.len()
        invariant
            0 <= i <= lines@.len(),
            ls == byte_strings(lines@),
            headers_view(out@) == headers_of_lines(ls.subrange(0, i as int)),
        decreases lines@.len() - i,
    {
        assert(ls.subrange(0, i + 1).drop_last() =~= ls.subrange(0, i as int));
        match parse_header_line(lines[i].as_slice()) {
            Some(h) => {
                set_header(&mut out, h.name.as_slice(), h.value);
            },
            None => {},
        }
        i += 1;
    }
    assert(ls.subrange(0, i as int) =~= ls);
    out
}

/// Splits a head into its lines, dropping carriage returns.
fn split_head_lines(head: &[u8]) -> (r: Vec<Vec<u8>>)
    ensures
        byte_strings(r@) == head_lines(head@),
{
    let lf: [u8; 1] = [10u8];
    assert(lf@ =~= seq![10u8]);
    let raw = split(head, lf.as_slice());
    let ghost rv = byte_strings(raw@);
    let mut out: Vec<Vec<u8>> = Vec::new();
    let mut i: usize = 0;
    while i < raw.len()
        invariant
            0 <= i <= raw@.len(),
            rv == byte_strings(raw@),
            rv == fields(head@, seq![10u8]),
            byte_strings(out@).len() == i,
            forall|j: int| 0 <= j < i ==> #[trigger] byte_strings(out@)[j] == strip_cr(rv[j]),
        decreases raw@.len() - i,
    {
        let line = &raw[i];
        let cut: usize = if line.len() > 0 && line[line.len() - 1] == 13u8 {
            line.len() - 1
        } else {
            line.len()
        };
        let piece = slice_to_vec(line.as_slice(), 0, cut);
        assert(piece@ =~= strip_cr(rv[i as int]));
        let ghost before = byte_strings(out@);
        let ghost pv = piece@;
        out.push(piece);
        assert(byte_strings(out@) =~= before.push(pv));
        i += 1;
    }
    assert(byte_strings(out@) =~= head_lines(head@));
    out
}

/// The header lines of a head: after the first line, up to the first empty one.
fn header_lines_of(lines: &Vec<Vec<u8>>) -> (r: Vec<Vec<u8>>)
    ensures
        byte_strings(r@) == header_block(byte_strings(lines@)),
{
    let ghost ls = byte_strings(lines@);
    let mut out: Vec<Vec<u8>> = Vec::new();
    let mut i: usize = 1;
    assert(ls.skip(0) =~= ls);
    while i < lines.len() && lines[i].len() > 0
        invariant
            1 <= i,
            i <= lines@.len() || lines@.len() == 0,
            ls == byte_strings(lines@),
            byte_strings(out@) + header_block(ls.skip(i - 1)) == header_block(ls),
        decreases lines@.len() - i,
    {
        let ghost before = byte_strings(out@);
        assert(ls.skip(i - 1).skip(1) =~= ls.skip(i as int));
        assert(ls.skip(i - 1)[1] == ls[i as int]);
        out.push(copy_bytes(&lines[i]));
        assert(byte_strings(out@) =~= before.push(ls[i as int]));
        i += 1;
    }
    if i < lines.len() {
        assert(ls.skip(i - 1)[1] == ls[i as int]);
    }
    assert(header_block(ls.skip(i - 1)) =~= Seq::<Seq<u8>>::empty());
    assert(byte_strings(out@) + Seq::<Seq<u8>>::empty() =~= byte_strings(out@));
    out
}

/// A parsed request line and header set.
pub struct RequestHead {
    pub method: Vec<u8>,
    pub target: Vec<u8>,
    pub version: Vec<u8>,
    pub headers: Vec<Header>,
}

/// A request line: exactly three parts separated by single spaces.
pub open spec fn request_line_parts(line: Seq<u8>) -> Option<(Seq<u8>, Seq<u8>, Seq<u8>)> {
    let parts = fields(line, seq![32u8]);
    if parts.len() == 3 {
        Some((parts[0], parts[1], parts[2]))
    } else {
        None
    }
}

/// Splits a request line into method, target and version.
pub fn parse_first_line_buffer(buffer: &[u8]) -> (r: Result<(Vec<u8>, Vec<u8>, Vec<u8>), ParseError>)
    ensures
        r matches Ok(p) ==> request_line_parts(buffer@) == Some((p.0@, p.1@, p.2@)),
        r is Err ==> r == Err::<(Vec<u8>, Vec<u8>, Vec<u8>), ParseError>(
            ParseError::MalformedRequestLine,
        ) && request_line_parts(buffer@) is None,
{
    let sp: [u8; 1] = [32u8];
    assert(sp@ =~= seq![32u8]);
    let mut parts = split(buffer, sp.as_slice());
    if parts.len() != 3 {
        return Err(ParseError::MalformedRequestLine);
    }
    let ghost pv = byte_strings(parts@);
    let version = parts.pop().unwrap();
    let target = parts.pop().unwrap();
    let method = parts.pop().unwrap();
    assert(method@ == pv[0] && target@ == pv[1] && version@ == pv[2]);
    Ok((method, target, version))
}

/// What a request head parses to.
pub open spec fn request_head_spec(head: Seq<u8>) -> Option<
    (Seq<u8>, Seq<u8>, Seq<u8>, Seq<(Seq<u8>, Seq<u8>)>),
> {
    let lines = head_lines(head);
    match request_line_parts(lines[0]) {
        Some(p) => Some((p.0, p.1, p.2, headers_of_lines(header_block(lines)))),
        None => None,
    }
}

/// Parses a request head: the request line, then header lines up to the first
/// empty line.
pub fn parse_request_head(head: &[u8]) -> (r: Result<RequestHead, ParseError>)
    ensures
        r matches Ok(h) ==> request_head_spec(head@) == Some(
            (h.method@, h.target@, h.version@, headers_view(h.headers@)),
        ),
        r is Err ==> r == Err::<RequestHead, ParseError>(ParseError::MalformedRequestLine)
            && request_head_spec(head@) is None,
{
    let lines = split_head_lines(head);
    proof {
        lemma_fields_nonempty(head@, seq![10u8], 0);
    }
    assert(byte_strings(lines@).len() >= 1);
    let (method, target, version) = parse_first_line_buffer(lines[0].as_slice())?;
    let block = header_lines_of(&lines);
    let headers = parse_headers(block.as_slice());
    Ok(RequestHead { method, target, version, headers })
}


/// The value of a decimal digit.
pub open spec fn digit_value(b: u8) -> nat {
    (b - 48) as nat
}

pub open spec fn is_digit(b: u8) -> bool {
    48 <= b && b <= 57
}

pub open spec fn all_digits(s: Seq<u8>) -> bool {
    forall|i: int| 0 <= i < s.len() ==> is_digit(#[trigger] s[i])
}

/// The number that the decimal digits `s` spell.
pub open spec fn dec_value(s: Seq<u8>) -> nat
    decreases s.len(),
{
    if s.len() == 0 {
        0
    } else {
        dec_value(s.drop_last()) * 10 + digit_value(s.last())
    }
}

/// `s` is a non-empty run of decimal digits whose value fits a `usize`.
pub open spec fn decimal_number(s: Seq<u8>) -> Option<nat> {
    if s.len() > 0 && all_digits(s) && dec_value(s) <= usize::MAX {
        Some(dec_value(s))
    } else {
        None
    }
}

proof fn lemma_dec_grows(s: Seq<u8>, k: int)
    requires
        0 <= k <= s.len(),
    ensures
        dec_value(s.subrange(0, k)) <= dec_value(s),
    decreases s.len() - k,
{
    if k < s.len() {
        lemma_dec_grows(s, k + 1);
        assert(s.subrange(0, k + 1).drop_last() == s.subrange(0, k));
    } else {
        assert(s.subrange(0, k) == s);
    }
}

/// Reads `s` as a decimal number.
pub fn parse_decimal(s: &[u8]) -> (r: Option<usize>)
    ensures
        r matches Some(n) ==> decimal_number(s@) == Some(n as nat),
        r is None ==> decimal_number(s@) is None,
{
    if s.len() == 0 {
        return None;
    }
    let mut value: usize = 0;
    let mut i: usize = 0;
    while i < s.len()
        invariant
            0 <= i <= s@.len(),
            forall|q: int| 0 <= q < i ==> is_digit(#[trigger] s@[q]),
            value as nat == dec_value(s@.subrange(0, i as int)),
        decreases s@.len() - i,
    {
        assert(s@.subrange(0, i + 1).drop_last() =~= s@.subrange(0, i as int));
        let b = s[i];
        if b < 48 || b > 57 {
            assert(!all_digits(s@));
            return None;
        }
        let d: usize = (b - 48) as usize;
        if value > (usize::MAX - d) / 10 {
            proof {
                lemma_dec_grows(s@, i + 1);
                let v = value as int;
                let dd = d as int;
                let m = usize::MAX as int;
                assert(v > (m - dd) / 10 ==> v * 10 + dd > m) by (nonlinear_arith)
                    requires
                        0 <= dd < 10,
                        m > 10,
                ;
            }
            return None;
        }
        value = value * 10 + d;
        i += 1;
    }
    assert(s@.subrange(0, i as int) =~= s@);
    Some(value)
}

/// The decimal digits of `n`.
pub open spec fn decimal(n: nat) -> Seq<u8>
    decreases n,
{
    if n < 10 {
        seq![(48 + n) as u8]
    } else {
        decimal(n / 10).push((48 + n % 10) as u8)
    }
}

/// Appends the decimal digits of `n` to `out`.
pub fn write_decimal(out: &mut Vec<u8>, n: usize)
    ensures
        final(out)@ == old(out)@ + decimal(n as nat),
    decreases n,
{
    if n >= 10 {
        write_decimal(out, n / 10);
    }
    let ghost mid = out@;
    out.push((48 + n % 10) as u8);
    assert(out@ =~= old(out)@ + decimal(n as nat));
}

/// A status line: trimmed, split at its first two spaces into version, code
/// and phrase; the code must be a decimal number below 65536.
pub open spec fn status_line_parts(line: Seq<u8>) -> Option<(Seq<u8>, nat, Seq<u8>)> {
    let t = trim(line);
    match first_occurrence(t, seq![32u8], 0) {
        None => None,
        Some(a) => match first_occurrence(t, seq![32u8], a + 1) {
            None => None,
            Some(b) => {
                let code = t.subrange(a + 1, b);
                match decimal_number(code) {
                    Some(c) => if c <= 65535 {
                        Some((t.subrange(0, a), c, t.subrange(b + 1, t.len() as int)))
                    } else {
                        None
                    },
                    None => None,
                }
            },
        },
    }
}

/// What a response head parses to.
pub open spec fn response_head_spec(head: Seq<u8>) -> Option<
    (Seq<u8>, nat, Seq<u8>, Seq<(Seq<u8>, Seq<u8>)>),
> {
    let lines = head_lines(head);
    match status_line_parts(lines[0]) {
        Some(p) => Some((p.0, p.1, p.2, headers_of_lines(header_block(lines)))),
        None => None,
    }
}

/// A parsed status line and header set.
pub struct ResponseHead {
    pub version: Vec<u8>,
    pub status_code: u16,
    pub status_text: Vec<u8>,
    pub headers: Vec<Header>,
}

/// Splits a status line into version, code and phrase.
pub fn parse_status_line(line: &[u8]) -> (r: Result<(Vec<u8>, u16, Vec<u8>), ParseError>)
    ensures
        r matches Ok(p) ==> status_line_parts(line@) == Some((p.0@, p.1 as nat, p.2@)),
        r is Err ==> r == Err::<(Vec<u8>, u16, Vec<u8>), ParseError>(
            ParseError::MalformedStatusLine,
        ) && status_line_parts(line@) is None,
{
    let (lo, hi) = trim_bounds(line, 0, line.len());
    assert(line@.subrange(0, line@.len() as int) =~= line@);
    let t = slice_to_vec(line, lo, hi);
    let sp: [u8; 1] = [32u8];
    assert(sp@ =~= seq![32u8]);
    let n: usize = t.len();
    match find_from(t.as_slice(), sp.as_slice(), 0) {
        None => Err(ParseError::MalformedStatusLine),
        Some(a) => match find_from(t.as_slice(), sp.as_slice(), a + 1) {
            None => Err(ParseError::MalformedStatusLine),
            Some(b) => {
                let code = slice_to_vec(t.as_slice(), a + 1, b);
                match parse_decimal(code.as_slice()) {
                    Some(c) => if c <= 65535 {
                        Ok((slice_to_vec(t.as_slice(), 0, a), c as u16, slice_to_vec(t.as_slice(), b + 1, n)))
                    } else {
                        Err(ParseError::MalformedStatusLine)
                    },
                    None => Err(ParseError::MalformedStatusLine),
                }
            },
        },
    }
}

/// Parses a response head: the status line, then header lines up to the first
/// empty line.
pub fn parse_response_head(head: &[u8]) -> (r: Result<ResponseHead, ParseError>)
    ensures
        r matches Ok(h) ==> response_head_spec(head@) == Some(
            (h.version@, h.status_code as nat, h.status_text@, headers_view(h.headers@)),
        ),
        r is Err ==> r == Err::<ResponseHead, ParseError>(ParseError::MalformedStatusLine)
            && response_head_spec(head@) is None,
{
    let lines = split_head_lines(head);
    proof {
        lemma_fields_nonempty(head@, seq![10u8], 0);
    }
    assert(byte_strings(lines@).len() >= 1);
    let (version, status_code, status_text) = parse_status_line(lines[0].as_slice())?;
    let block = header_lines_of(&lines);
    let headers = parse_headers(block.as_slice());
    Ok(ResponseHead { version, status_code, status_text, headers })
}

pub open spec fn content_length_name() -> Seq<u8> {
    seq![67u8, 111, 110, 116, 101, 110, 116, 45, 76, 101, 110, 103, 116, 104]
}

pub open spec fn transfer_encoding_name() -> Seq<u8> {
    seq![84u8, 114, 97, 110, 115, 102, 101, 114, 45, 69, 110, 99, 111, 100, 105, 110, 103]
}

pub open spec fn content_encoding_name() -> Seq<u8> {
    seq![67u8, 111, 110, 116, 101, 110, 116, 45, 69, 110, 99, 111, 100, 105, 110, 103]
}

pub open spec fn chunked_word() -> Seq<u8> {
    seq![99u8, 104, 117, 110, 107, 101, 100]
}

pub fn content_length_bytes() -> (r: [u8; 14])
    ensures
        r@ == content_length_name(),
{
    let r: [u8; 14] = [67u8, 111, 110, 116, 101, 110, 116, 45, 76, 101, 110, 103, 116, 104];
    assert(r@ =~= content_length_name());
    r
}

pub fn transfer_encoding_bytes() -> (r: [u8; 17])
    ensures
        r@ == transfer_encoding_name(),
{
    let r: [u8; 17] = [84u8, 114, 97, 110, 115, 102, 101, 114, 45, 69, 110, 99, 111, 100, 105, 110, 103];
    assert(r@ =~= transfer_encoding_name());
    r
}

pub fn content_encoding_bytes() -> (r: [u8; 16])
    ensures
        r@ == content_encoding_name(),
{
    let r: [u8; 16] = [67u8, 111, 110, 116, 101, 110, 116, 45, 69, 110, 99, 111, 100, 105, 110, 103];
    assert(r@ =~= content_encoding_name());
    r
}

/// How the body of a response is delimited.
#[derive(Clone, Copy, Debug, PartialEq, Eq, Structural)]
pub enum BodyFraming {
    /// Exactly this many bytes follow the head.
    Length(usize),
    /// A chunked body follows.
    Chunked,
    /// No body.
    NoBody,
}

/// The framing that a response's headers announce: `Content-Length` first, then
/// a `Transfer-Encoding` that mentions `chunked`; `None` for a length that is not
/// a number.
pub open spec fn response_framing(hs: Seq<(Seq<u8>, Seq<u8>)>) -> Option<BodyFraming> {
    match header_value(hs, content_length_name()) {
        Some(v) => match decimal_number(v) {
            Some(n) => Some(BodyFraming::Length(n as usize)),
            None => None,
        },
        None => match header_value(hs, transfer_encoding_name()) {
            Some(te) => if first_occurrence(lower(te), chunked_word(), 0) is Some {
                Some(BodyFraming::Chunked)
            } else {
                Some(BodyFraming::NoBody)
            },
            None => Some(BodyFraming::NoBody),
        },
    }
}

/// ASCII lowercase copy.
pub fn to_lower(s: &[u8]) -> (r: Vec<u8>)
    ensures
        r@ == lower(s@),
{
    let mut out: Vec<u8> = Vec::new();
    let mut i: usize = 0;
    while i < s.len()
        invariant
            0 <= i <= s@.len(),
            out@ == lower(s@.subrange(0, i as int)),
        decreases s@.len() - i,
    {
        out.push(lower_byte_exec(s[i]));
        assert(lower(s@.subrange(0, i + 1)) =~= lower(s@.subrange(0, i as int)).push(
            crate::text::lower_byte(s@[i as int]),
        ));
        i += 1;
    }
    assert(s@.subrange(0, i as int) =~= s@);
    out
}

/// Decides how a response body is delimited.
pub fn body_framing(headers: &Vec<Header>) -> (r: Result<BodyFraming, ParseError>)
    ensures
        r matches Ok(f) ==> response_framing(headers_view(headers@)) == Some(f),
        r is Err ==> r == Err::<BodyFraming, ParseError>(ParseError::BadContentLength)
            && response_framing(headers_view(headers@)) is None,
{
    let cl = content_length_bytes();
    match get_header(headers, cl.as_slice()) {
        Some(v) => match parse_decimal(v.as_slice()) {
            Some(n) => Ok(BodyFraming::Length(n)),
            None => Err(ParseError::BadContentLength),
        },
        None => {
            let te = transfer_encoding_bytes();
            match get_header(headers, te.as_slice()) {
                Some(v) => {
                    let low = to_lower(v.as_slice());
                    let word: [u8; 7] = [99u8, 104, 117, 110, 107, 101, 100];
                    assert(word@ =~= chunked_word());
                    if find_from(low.as_slice(), word.as_slice(), 0).is_some() {
                        Ok(BodyFraming::Chunked)
                    } else {
                        Ok(BodyFraming::NoBody)
                    }
                },
                None => Ok(BodyFraming::NoBody),
            }
        },
    }
}

/// The length of a request body: the `Content-Length` value, or zero when it is
/// missing or not a number.
pub open spec fn request_body_len(hs: Seq<(Seq<u8>, Seq<u8>)>) -> nat {
    match header_value(hs, content_length_name()) {
        Some(v) => match decimal_number(v) {
            Some(n) => n,
            None => 0,
        },
        None => 0,
    }
}

/// How many body bytes follow a request head.
pub fn request_body_length(headers: &Vec<Header>) -> (r: usize)
    ensures
        r as nat == request_body_len(headers_view(headers@)),
{
    let cl = content_length_bytes();
    match get_header(headers, cl.as_slice()) {
        Some(v) => match parse_decimal(v.as_slice()) {
            Some(n) => n,
            None => 0,
        },
        None => 0,
    }
}

/// Header lines as they go on the wire: `name: value` and CRLF for each.
pub open spec fn header_bytes(hs: Seq<(Seq<u8>, Seq<u8>)>) -> Seq<u8>
    decreases hs.len(),
{
    if hs.len() == 0 {
        Seq::empty()
    } else {
        header_bytes(hs.drop_last()) + hs.last().0 + seq![58u8, 32u8] + hs.last().1 + seq![
            13u8,
            10u8,
        ]
    }
}

/// Appends the header lines of `headers`.
pub fn write_headers(out: &mut Vec<u8>, headers: &Vec<Header>)
    ensures
        final(out)@ == old(out)@ + header_bytes(headers_view(headers@)),
{
    let ghost hs = headers_view(headers@);
    let sep: [u8; 2] = [58u8, 32u8];
    let crlf: [u8; 2] = [13u8, 10u8];
    assert(sep@ =~= seq![58u8, 32u8]);
    assert(crlf@ =~= seq![13u8, 10u8]);
    let mut i: usize = 0;
    while i < headers.len()
        invariant
            0 <= i <= headers@.len(),
            hs == headers_view(headers@),
            sep@ == seq![58u8, 32u8],
            crlf@ == seq![13u8, 10u8],
            out@ == old(out)@ + header_bytes(hs.subrange(0, i as int)),
        decreases headers@.len() - i,
    {
        assert(hs.subrange(0, i + 1).drop_last() =~= hs.subrange(0, i as int));
        push_all(out, headers[i].name.as_slice());
        push_all(out, sep.as_slice());
        push_all(out, headers[i].value.as_slice());
        push_all(out, crlf.as_slice());
        assert(out@ =~= old(out)@ + header_bytes(hs.subrange(0, i + 1)));
        i += 1;
    }
    assert(hs.subrange(0, i as int) =~= hs);
}


/// The most header lines a head may have before its empty line.
pub const MAX_HEADER_LINES: usize = 100;

/// Where a head that starts at `pos` ends, `count` lines having been read: just
/// after the first line that is empty (`\r\n` or `\n`).
pub enum HeadScan {
    Complete(nat),
    Incomplete,
    TooLarge,
}

pub open spec fn head_end_from(s: Seq<u8>, pos: int, count: nat) -> HeadScan
    decreases s.len() - pos,
{
    if pos < 0 || pos > s.len() {
        HeadScan::Incomplete
    } else {
        match first_occurrence(s, seq![10u8], pos) {
            None => HeadScan::Incomplete,
            Some(nl) => if nl < pos || nl >= s.len() {
                HeadScan::Incomplete
            } else {
                let line = s.subrange(pos, nl + 1);
                if line == seq![13u8, 10u8] || line == seq![10u8] {
                    HeadScan::Complete((nl + 1) as nat)
                } else if count + 1 > MAX_HEADER_LINES {
                    HeadScan::TooLarge
                } else {
                    head_end_from(s, nl + 1, count + 1)
                }
            },
        }
    }
}

/// Finds the end of the head at the start of `buf`: `Some(n)` when its first
/// `n` bytes hold it, `None` while more bytes are needed, `HeadersTooLarge`
/// after more than 100 lines without an empty one.
pub fn find_head_end(buf: &[u8]) -> (r: Result<Option<usize>, ParseError>)
    ensures
        r matches Ok(Some(n)) ==> head_end_from(buf@, 0, 0) == HeadScan::Complete(n as nat),
        r matches Ok(None) ==> head_end_from(buf@, 0, 0) == HeadScan::Incomplete,
        r is Err ==> r == Err::<Option<usize>, ParseError>(ParseError::HeadersTooLarge)
            && head_end_from(buf@, 0, 0) == HeadScan::TooLarge,
{
    let lf: [u8; 1] = [10u8];
    assert(lf@ =~= seq![10u8]);
    let n: usize = buf.len();
    let mut p: usize = 0;
    let mut count: usize = 0;
    loop
        invariant
            p <= buf@.len(),
            n == buf@.len(),
            count <= MAX_HEADER_LINES,
            lf@ == seq![10u8],
            head_end_from(buf@, 0, 0) == head_end_from(buf@, p as int, count as nat),
        decreases buf@.len() - p,
    {
        match find_from(buf, lf.as_slice(), p) {
            None => {
                return Ok(None);
            },
            Some(nl) => {
                let ghost line = buf@.subrange(p as int, nl + 1);
                assert(buf@.subrange(nl as int, nl + 1)[0] == buf@[nl as int]);
                if nl > p && nl - p == 1 && buf[p] == 13u8 {
                    assert(line =~= seq![13u8, 10u8]);
                    return Ok(Some(nl + 1));
                }
                if nl == p {
                    assert(line =~= seq![10u8]);
                    return Ok(Some(nl + 1));
                }
                assert(line != seq![13u8, 10u8] && line != seq![10u8]) by {
                    if nl == p + 1 {
                        assert(line[0] == buf@[p as int]);
                        assert(line[0] != seq![13u8, 10u8][0]);
                    } else {
                        assert(line.len() > 2);
                    }
                }
                if count + 1 > MAX_HEADER_LINES {
                    return Err(ParseError::HeadersTooLarge);
                }
                count += 1;
                p = nl + 1;
            },
        }
    }
}

/// The header lines of a head, as `parse_connect` keeps them.
pub open spec fn connect_header_lines(buf: Seq<u8>) -> Seq<Seq<u8>> {
    header_block(head_lines(buf))
}

/// Parses the head of a `CONNECT` request: its request line into method,
/// authority and version, and its header lines.
pub fn parse_connect(buffer: &[u8]) -> (r: Result<crate::message::StreamParser, ParseError>)
    ensures
        r matches Ok(p) ==> p.buffer@ == buffer@ && request_line_parts(head_lines(buffer@)[0])
            == Some((p.method@, p.authority@, p.version@)) && byte_strings(p.header_lines@)
            == connect_header_lines(buffer@),
        r is Err ==> r == Err::<crate::message::StreamParser, ParseError>(
            ParseError::MalformedRequestLine,
        ) && request_line_parts(head_lines(buffer@)[0]) is None,
{
    let lines = split_head_lines(buffer);
    proof {
        lemma_fields_nonempty(buffer@, seq![10u8], 0);
    }
    assert(byte_strings(lines@).len() >= 1);
    let (method, authority, version) = parse_first_line_buffer(lines[0].as_slice())?;
    let header_lines = header_lines_of(&lines);
    assert(buffer@.subrange(0, buffer@.len() as int) =~= buffer@);
    Ok(
        crate::message::StreamParser {
            buffer: slice_to_vec(buffer, 0, buffer.len()),
            header_lines,
            method,
            authority,
            version,
        },
    )
}

/// `without_header(hs, n)` holds no pair named `n`.
pub proof fn lemma_without_header_absent(hs: Seq<(Seq<u8>, Seq<u8>)>, n: Seq<u8>, m: Seq<u8>)
    requires
        eq_ignore_case(n, m) || forall|j: int|
            0 <= j < hs.len() ==> !eq_ignore_case(#[trigger] hs[j].0, m),
    ensures
        forall|j: int|
            0 <= j < without_header(hs, n).len() ==> !eq_ignore_case(
                #[trigger] without_header(hs, n)[j].0,
                m,
            ),
    decreases hs.len(),
{
    if hs.len() > 0 {
        let d = hs.drop_last();
        assert forall|j: int| 0 <= j < d.len() implies #[trigger] d[j] == hs[j] by {}
        lemma_without_header_absent(d, n, m);
        let r = without_header(hs, n);
        let rest = without_header(d, n);
        assert forall|j: int| 0 <= j < r.len() implies !eq_ignore_case(#[trigger] r[j].0, m) by {
            if j < rest.len() {
                assert(r[j] == rest[j]);
            } else {
                assert(r[j] == hs.last());
                if eq_ignore_case(n, m) {
                    assert(!eq_ignore_case(hs.last().0, n));
                }
            }
        }
    }
}

/// Splitting always yields at least one piece.
proof fn lemma_fields_nonempty(s: Seq<u8>, pat: Seq<u8>, start: int)
    requires
        0 <= start <= s.len(),
        pat.len() > 0,
    ensures
        fields_from(s, pat, start).len() >= 1,
{
    crate::text::lemma_first_occurrence(s, pat, start);
}

} // verus!
