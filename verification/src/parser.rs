//! The parsing pipeline: request line, header block, body strategy, chunked
//! decoding, and the top-level reader that assembles a request.

use vstd::prelude::*;

use crate::headers::Headers;
use crate::request::{
    lower_char, lower_char_exec, lower_chars, spec_build, BuildErrorView, BuilderView, HttpRequest,
    HttpRequestError, RequestView,
};
use crate::stream::{bytes_to_string, lemma_next_advances, spec_line, spec_next, ByteStream};
use vstd::utf8::{decode_utf8, valid_utf8};

verus! {

/// The ghost image of a parse failure.
pub ghost enum ParseErrorView {
    MissingMethod,
    MissingPath,
    MissingVersion,
    InvalidMethod(Seq<char>),
    InvalidPath(Seq<char>),
    InvalidVersion(Seq<char>),
    InvalidRequestLine,
    InvalidHeaderFormat(Seq<char>),
    InvalidContentLength,
    InvalidChunkSize(Seq<char>),
    BodyReadFailure,
    LineReadFailure,
    StreamEnded,
}

/// A failure of any parsing stage; the first failure aborts the rest of the
/// parse.
#[derive(Debug)]
pub enum ParseError {
    MissingMethod,
    MissingPath,
    MissingVersion,
    InvalidMethod(String),
    InvalidPath(String),
    InvalidVersion(String),
    InvalidRequestLine,
    InvalidHeaderFormat(String),
    InvalidContentLength,
    InvalidChunkSize(String),
    BodyReadFailure,
    LineReadFailure,
    StreamEnded,
}

impl View for ParseError {
    type V = ParseErrorView;

    open spec fn view(&self) -> ParseErrorView {
        match self {
            ParseError::MissingMethod => ParseErrorView::MissingMethod,
            ParseError::MissingPath => ParseErrorView::MissingPath,
            ParseError::MissingVersion => ParseErrorView::MissingVersion,
            ParseError::InvalidMethod(s) => ParseErrorView::InvalidMethod(s@),
            ParseError::InvalidPath(s) => ParseErrorView::InvalidPath(s@),
            ParseError::InvalidVersion(s) => ParseErrorView::InvalidVersion(s@),
            ParseError::InvalidRequestLine => ParseErrorView::InvalidRequestLine,
            ParseError::InvalidHeaderFormat(s) => ParseErrorView::InvalidHeaderFormat(s@),
            ParseError::InvalidContentLength => ParseErrorView::InvalidContentLength,
            ParseError::InvalidChunkSize(s) => ParseErrorView::InvalidChunkSize(s@),
            ParseError::BodyReadFailure => ParseErrorView::BodyReadFailure,
            ParseError::LineReadFailure => ParseErrorView::LineReadFailure,
            ParseError::StreamEnded => ParseErrorView::StreamEnded,
        }
    }
}

/// The parse failure a build failure propagates as.
pub open spec fn spec_error_of_build(e: BuildErrorView) -> ParseErrorView {
    match e {
        BuildErrorView::MissingMethod => ParseErrorView::MissingMethod,
        BuildErrorView::MissingPath => ParseErrorView::MissingPath,
        BuildErrorView::MissingVersion => ParseErrorView::MissingVersion,
        BuildErrorView::InvalidMethod(s) => ParseErrorView::InvalidMethod(s),
        BuildErrorView::InvalidPath(s) => ParseErrorView::InvalidPath(s),
        BuildErrorView::InvalidVersion(s) => ParseErrorView::InvalidVersion(s),
    }
}

/// Maps a build failure into the parse failure taxonomy.
pub fn error_of_build(e: HttpRequestError) -> (r: ParseError)
    ensures
        r@ == spec_error_of_build(e@),
{
    match e {
        HttpRequestError::MissingMethod => ParseError::MissingMethod,
        HttpRequestError::MissingPath => ParseError::MissingPath,
        HttpRequestError::MissingVersion => ParseError::MissingVersion,
        HttpRequestError::InvalidMethod(s) => ParseError::InvalidMethod(s),
        HttpRequestError::InvalidPath(s) => ParseError::InvalidPath(s),
        HttpRequestError::InvalidVersion(s) => ParseError::InvalidVersion(s),
    }
}

/// Whether a parse failure can mean that the connection simply has not
/// delivered the rest of the request yet, so that a caller that feeds the
/// reader incrementally may wait for more bytes instead of rejecting.
pub fn may_be_incomplete(e: &ParseError) -> (r: bool)
    ensures
        r == (e@ == ParseErrorView::StreamEnded || e@ == ParseErrorView::BodyReadFailure),
{
    match e {
        ParseError::StreamEnded => true,
        ParseError::BodyReadFailure => true,
        _ => false,
    }
}

pub open spec fn is_dec_digit(c: char) -> bool {
    48 <= c as u32 <= 57
}

pub open spec fn dec_digit_val(c: char) -> nat {
    (c as u32 - 48) as nat
}

/// The value of a decimal digit string, most significant digit first.
pub open spec fn dec_val(s: Seq<char>) -> nat
    decreases s.len(),
{
    if s.len() == 0 {
        0
    } else {
        dec_val(s.drop_last()) * 10 + dec_digit_val(s.last())
    }
}

pub open spec fn all_dec_digits(s: Seq<char>) -> bool {
    forall|i: int| 0 <= i < s.len() ==> is_dec_digit(#[trigger] s[i])
}

/// A well-formed size token: non-empty, digits only, and within `usize`.
pub open spec fn dec_parses(s: Seq<char>) -> bool {
    s.len() > 0 && all_dec_digits(s) && dec_val(s) <= usize::MAX
}

proof fn lemma_dec_val_grows(s: Seq<char>, i: int)
    requires
        0 <= i <= s.len(),
    ensures
        dec_val(s.take(i)) <= dec_val(s),
    decreases s.len() - i,
{
    if i < s.len() {
        lemma_dec_val_grows(s, i + 1);
        assert(s.take(i + 1).drop_last() =~= s.take(i));
        assert(dec_val(s.take(i + 1)) == dec_val(s.take(i)) * 10 + dec_digit_val(s[i]));
    } else {
        assert(s.take(i) =~= s);
    }
}

/// Parses a non-negative decimal size, exactly when the token is non-empty,
/// all digits, and fits the machine's size type.
pub fn parse_dec(s: &str) -> (r: Option<usize>)
    ensures
        dec_parses(s@) ==> (r matches Some(v) && v == dec_val(s@)),
        !dec_parses(s@) ==> r is None,
{
    let n = s.unicode_len();
    if n == 0 {
        return None;
    }
    let mut acc: usize = 0;
    let mut i: usize = 0;
    while i < n
        invariant
            0 <= i <= n,
            n == s@.len(),
            acc == dec_val(s@.take(i as int)),
            all_dec_digits(s@.take(i as int)),
        decreases n - i,
    {
        let c = s.get_char(i);
        let u = c as u32;
        if !(48 <= u && u <= 57) {
            proof {
                assert(s@.take(n as int) =~= s@);
                assert(!is_dec_digit(s@[i as int]));
            }
            return None;
        }
        let d = (u - 48) as usize;
        if acc > (usize::MAX - d) / 10 {
            proof {
                assert(s@.take(i + 1).drop_last() =~= s@.take(i as int));
                assert(dec_val(s@.take(i + 1)) == acc * 10 + d);
                assert(acc * 10 + d > usize::MAX) by (nonlinear_arith)
                    requires
                        acc > (usize::MAX - d) / 10,
                        d <= 9,
                {}
                lemma_dec_val_grows(s@, i + 1);
            }
            return None;
        }
        proof {
            assert(acc * 10 + d <= usize::MAX) by (nonlinear_arith)
                requires
                    acc <= (usize::MAX - d) / 10,
                    d <= 9,
            {}
            assert(s@.take(i + 1).drop_last() =~= s@.take(i as int));
        }
        acc = acc * 10 + d;
        i += 1;
    }
    proof {
        assert(s@.take(n as int) =~= s@);
    }
    Some(acc)
}

pub open spec fn is_hex_digit(c: char) -> bool {
    48 <= c as u32 <= 57 || 97 <= c as u32 <= 102 || 65 <= c as u32 <= 70
}

pub open spec fn hex_digit_val(c: char) -> nat {
    if 48 <= c as u32 <= 57 {
        (c as u32 - 48) as nat
    } else if 97 <= c as u32 <= 102 {
        (c as u32 - 87) as nat
    } else if 65 <= c as u32 <= 70 {
        (c as u32 - 55) as nat
    } else {
        0
    }
}

/// The value of a hexadecimal digit string, most significant digit first.
pub open spec fn hex_val(s: Seq<char>) -> nat
    decreases s.len(),
{
    if s.len() == 0 {
        0
    } else {
        hex_val(s.drop_last()) * 16 + hex_digit_val(s.last())
    }
}

pub open spec fn all_hex_digits(s: Seq<char>) -> bool {
    forall|i: int| 0 <= i < s.len() ==> is_hex_digit(#[trigger] s[i])
}

/// A well-formed chunk-size token: non-empty, hex digits only, and within
/// `usize`.
pub open spec fn hex_parses(s: Seq<char>) -> bool {
    s.len() > 0 && all_hex_digits(s) && hex_val(s) <= usize::MAX
}

proof fn lemma_hex_val_grows(s: Seq<char>, i: int)
    requires
        0 <= i <= s.len(),
    ensures
        hex_val(s.take(i)) <= hex_val(s),
    decreases s.len() - i,
{
    if i < s.len() {
        lemma_hex_val_grows(s, i + 1);
        assert(s.take(i + 1).drop_last() =~= s.take(i));
        assert(hex_val(s.take(i + 1)) == hex_val(s.take(i)) * 16 + hex_digit_val(s[i]));
    } else {
        assert(s.take(i) =~= s);
    }
}

/// Parses a chunk size in hexadecimal, exactly when the token is non-empty,
/// all hex digits, and fits the machine's size type.
pub fn parse_hex(s: &str) -> (r: Option<usize>)
    ensures
        hex_parses(s@) ==> (r matches Some(v) && v == hex_val(s@)),
        !hex_parses(s@) ==> r is None,
{
    let n = s.unicode_len();
    if n == 0 {
        return None;
    }
    let mut acc: usize = 0;
    let mut i: usize = 0;
    while i < n
        invariant
            0 <= i <= n,
            n == s@.len(),
            acc == hex_val(s@.take(i as int)),
            all_hex_digits(s@.take(i as int)),
        decreases n - i,
    {
        let c = s.get_char(i);
        let u = c as u32;
        let d: usize;
        if 48 <= u && u <= 57 {
            d = (u - 48) as usize;
        } else if 97 <= u && u <= 102 {
            d = (u - 87) as usize;
        } else if 65 <= u && u <= 70 {
            d = (u - 55) as usize;
        } else {
            proof {
                assert(s@.take(n as int) =~= s@);
                assert(!is_hex_digit(s@[i as int]));
            }
            return None;
        }
        if acc > (usize::MAX - d) / 16 {
            proof {
                assert(s@.take(i + 1).drop_last() =~= s@.take(i as int));
                assert(hex_val(s@.take(i + 1)) == acc * 16 + d);
                assert(acc * 16 + d > usize::MAX) by (nonlinear_arith)
                    requires
                        acc > (usize::MAX - d) / 16,
                        d <= 15,
                {}
                lemma_hex_val_grows(s@, i + 1);
            }
            return None;
        }
        proof {
            assert(acc * 16 + d <= usize::MAX) by (nonlinear_arith)
                requires
                    acc <= (usize::MAX - d) / 16,
                    d <= 15,
            {}
            assert(s@.take(i + 1).drop_last() =~= s@.take(i as int));
        }
        acc = acc * 16 + d;
        i += 1;
    }
    proof {
        assert(s@.take(n as int) =~= s@);
    }
    Some(acc)
}

/// Whitespace that separates request-line tokens.
pub open spec fn is_ws(c: char) -> bool {
    c == ' ' || c == '\t'
}

/// The tokens of `s` from position `i` on, given the tokens already
/// collected and the (possibly empty) token in progress: maximal runs of
/// non-whitespace characters.
pub open spec fn tokens_from(s: Seq<char>, i: int, acc: Seq<Seq<char>>, cur: Seq<char>) -> Seq<
    Seq<char>,
>
    decreases s.len() - i,
{
    if i < 0 || i >= s.len() {
        if cur.len() > 0 {
            acc.push(cur)
        } else {
            acc
        }
    } else if is_ws(s[i]) {
        if cur.len() > 0 {
            tokens_from(s, i + 1, acc.push(cur), Seq::empty())
        } else {
            tokens_from(s, i + 1, acc, Seq::empty())
        }
    } else {
        tokens_from(s, i + 1, acc, cur.push(s[i]))
    }
}

/// The whitespace-separated tokens of a line.
pub open spec fn tokens(s: Seq<char>) -> Seq<Seq<char>> {
    tokens_from(s, 0, Seq::empty(), Seq::empty())
}

pub open spec fn views_of(ts: Seq<String>) -> Seq<Seq<char>> {
    ts.map(|i: int, t: String| t@)
}

/// Splits a line into its whitespace-separated tokens.
pub fn split_tokens(s: &str) -> (r: Vec<String>)
    ensures
        views_of(r@) == tokens(s@),
{
    let n = s.unicode_len();
    let mut toks: Vec<String> = Vec::new();
    let mut start: usize = 0;
    let mut in_tok = false;
    let mut i: usize = 0;
    proof {
        assert(views_of(toks@) =~= Seq::<Seq<char>>::empty());
    }
    while i < n
        invariant
            0 <= i <= n,
            n == s@.len(),
            in_tok ==> 0 <= start < i,
            in_tok ==> tokens(s@) == tokens_from(
                s@,
                i as int,
                views_of(toks@),
                s@.subrange(start as int, i as int),
            ),
            !in_tok ==> tokens(s@) == tokens_from(s@, i as int, views_of(toks@), Seq::empty()),
        decreases n - i,
    {
        let c = s.get_char(i);
        if c == ' ' || c == '\t' {
            if in_tok {
                let ghost before = toks@;
                let ghost cur = s@.subrange(start as int, i as int);
                toks.push(s.substring_char(start, i).to_owned());
                in_tok = false;
                proof {
                    assert(views_of(toks@) =~= views_of(before).push(cur));
                }
            }
        } else {
            if !in_tok {
                start = i;
                in_tok = true;
                proof {
                    assert(s@.subrange(i as int, i + 1) =~= Seq::<char>::empty().push(s@[i as int]));
                }
            } else {
                proof {
                    assert(s@.subrange(start as int, i + 1) =~= s@.subrange(
                        start as int,
                        i as int,
                    ).push(s@[i as int]));
                }
            }
        }
        i += 1;
    }
    if in_tok {
        let ghost before = toks@;
        let ghost cur = s@.subrange(start as int, n as int);
        toks.push(s.substring_char(start, n).to_owned());
        proof {
            assert(views_of(toks@) =~= views_of(before).push(cur));
        }
    }
    toks
}

/// The header-line separator `": "` as bytes: a colon followed by a space.
pub open spec fn find_sep(s: Seq<u8>, i: int) -> int
    decreases s.len() - i,
{
    if i < 0 || i + 2 > s.len() {
        -1
    } else if s[i] == 58 && s[i + 1] == 32 {
        i
    } else {
        find_sep(s, i + 1)
    }
}

/// Finds the first `": "` separator in a header line's bytes.
fn find_sep_exec(v: &Vec<u8>) -> (r: Option<usize>)
    ensures
        match r {
            Some(j) => j == find_sep(v@, 0) && j + 2 <= v@.len(),
            None => find_sep(v@, 0) == -1,
        },
{
    let n = v.len();
    let mut i: usize = 0;
    while n >= 2 && i <= n - 2
        invariant
            0 <= i <= n,
            n == v@.len(),
            find_sep(v@, 0) == find_sep(v@, i as int),
        decreases n - i,
    {
        if v[i] == 58 && v[i + 1] == 32 {
            return Some(i);
        }
        i += 1;
    }
    None
}

/// ASCII lower-casing of a byte; bytes outside `A`..`Z` are unchanged, so
/// multi-byte text is untouched.
pub open spec fn lower_byte(b: u8) -> u8 {
    if 65 <= b <= 90 {
        (b + 32) as u8
    } else {
        b
    }
}

pub open spec fn lower_bytes(s: Seq<u8>) -> Seq<u8> {
    s.map(|i: int, b: u8| lower_byte(b))
}

/// Copies `v[a..b]` lower-cased.
fn lower_bytes_vec(v: &Vec<u8>, a: usize, b: usize) -> (r: Vec<u8>)
    requires
        a <= b <= v@.len(),
    ensures
        r@ == lower_bytes(v@.subrange(a as int, b as int)),
{
    let mut out: Vec<u8> = Vec::new();
    let mut i: usize = a;
    proof {
        assert(out@ =~= lower_bytes(v@.subrange(a as int, a as int)));
    }
    while i < b
        invariant
            a <= i <= b <= v@.len(),
            out@ == lower_bytes(v@.subrange(a as int, i as int)),
        decreases b - i,
    {
        let x = v[i];
        let y: u8 = if 65 <= x && x <= 90 {
            x + 32
        } else {
            x
        };
        out.push(y);
        proof {
            assert(out@ =~= lower_bytes(v@.subrange(a as int, i + 1)));
        }
        i += 1;
    }
    out
}

/// Copies `v[a..b]`.
fn sub_bytes(v: &Vec<u8>, a: usize, b: usize) -> (r: Vec<u8>)
    requires
        a <= b <= v@.len(),
    ensures
        r@ == v@.subrange(a as int, b as int),
{
    let mut out: Vec<u8> = Vec::new();
    let mut i: usize = a;
    while i < b
        invariant
            a <= i <= b <= v@.len(),
            out@ == v@.subrange(a as int, i as int),
        decreases b - i,
    {
        out.push(v[i]);
        proof {
            assert(out@ =~= v@.subrange(a as int, i + 1));
        }
        i += 1;
    }
    out
}

/// The lower-cased `transfer-encoding` header key.
pub open spec fn te_key() -> Seq<char> {
    "transfer-encoding"@
}

/// The lower-cased `content-length` header key.
pub open spec fn cl_key() -> Seq<char> {
    "content-length"@
}

/// The chunked transfer coding name.
pub open spec fn chunked_chars() -> Seq<char> {
    seq!['c', 'h', 'u', 'n', 'k', 'e', 'd']
}

/// Whether a transfer-encoding value names the chunked coding, compared
/// case-insensitively.
pub fn is_chunked_value(v: &str) -> (r: bool)
    ensures
        r == (lower_chars(v@) == chunked_chars()),
{
    proof {
        assert forall|i: int| 0 <= i < v@.len() implies lower_chars(v@)[i] == lower_char(
            v@[i],
        ) by {}
    }
    let n = v.unicode_len();
    let r = n == 7 && lower_char_exec(v.get_char(0)) == 'c' && lower_char_exec(v.get_char(1))
        == 'h' && lower_char_exec(v.get_char(2)) == 'u' && lower_char_exec(v.get_char(3)) == 'n'
        && lower_char_exec(v.get_char(4)) == 'k' && lower_char_exec(v.get_char(5)) == 'e'
        && lower_char_exec(v.get_char(6)) == 'd';
    proof {
        if r {
            assert(lower_chars(v@) =~= chunked_chars());
        } else {
            assert(lower_chars(v@).len() == v@.len());
            if lower_chars(v@) == chunked_chars() {
                assert(lower_chars(v@)[0] == 'c' && lower_chars(v@)[1] == 'h' && lower_chars(v@)[2]
                    == 'u' && lower_chars(v@)[3] == 'n' && lower_chars(v@)[4] == 'k' && lower_chars(
                    v@,
                )[5] == 'e' && lower_chars(v@)[6] == 'd');
            }
        }
    }
    r
}

/// What reading the request line yields: the three raw tokens and the
/// position after the line, or the first failure.
pub open spec fn spec_request_line(data: Seq<u8>, pos: int) -> Result<
    ((Seq<char>, Seq<char>, Seq<char>), int),
    ParseErrorView,
> {
    if pos >= data.len() {
        Err(ParseErrorView::StreamEnded)
    } else {
        let content = spec_line(data, pos);
        let p2 = spec_next(data, pos);
        if !valid_utf8(content) {
            Err(ParseErrorView::LineReadFailure)
        } else {
            let toks = tokens(decode_utf8(content));
            if toks.len() != 3 {
                Err(ParseErrorView::InvalidRequestLine)
            } else {
                Ok(((toks[0], toks[1], toks[2]), p2))
            }
        }
    }
}

/// Reads and splits the request line: exactly three whitespace-separated
/// tokens are required.
pub fn parse_request_line(s: &mut ByteStream) -> (r: Result<(String, String, String), ParseError>)
    requires
        old(s).wf(),
    ensures
        final(s).wf(),
        final(s).data() == old(s).data(),
        match spec_request_line(old(s).data(), old(s).pos()) {
            Ok(tp) => (r matches Ok(t) && t.0@ == tp.0.0 && t.1@ == tp.0.1 && t.2@ == tp.0.2
                && final(s).pos() == tp.1),
            Err(ev) => (r matches Err(e) && e@ == ev),
        },
{
    let line = match s.take_line() {
        Ok(None) => { return Err(ParseError::StreamEnded) },
        Err(()) => { return Err(ParseError::LineReadFailure) },
        Ok(Some(l)) => l,
    };
    let mut toks = split_tokens(line.as_str());
    if toks.len() != 3 {
        return Err(ParseError::InvalidRequestLine);
    }
    let t2 = toks.pop().unwrap();
    let t1 = toks.pop().unwrap();
    let t0 = toks.pop().unwrap();
    proof {
        let tv = tokens(decode_utf8(spec_line(old(s).data(), old(s).pos())));
        assert(t0@ == tv[0] && t1@ == tv[1] && t2@ == tv[2]);
    }
    Ok((t0, t1, t2))
}

/// What reading the header block from `pos` yields, given the mapping
/// collected so far: an empty line (or the stream's end) terminates; each
/// other line must hold `": "`, and its lower-cased left part maps to its
/// right part, the later of two lines with one key winning.
pub open spec fn spec_headers(data: Seq<u8>, pos: int, acc: Map<Seq<char>, Seq<char>>) -> Result<
    (Map<Seq<char>, Seq<char>>, int),
    ParseErrorView,
>
    decreases data.len() - pos,
    when 0 <= pos <= data.len()
{
    if pos >= data.len() {
        Ok((acc, pos))
    } else {
        let content = spec_line(data, pos);
        let p2 = spec_next(data, pos);
        if content.len() == 0 {
            Ok((acc, p2))
        } else {
            let sp = find_sep(content, 0);
            if sp < 0 {
                if valid_utf8(content) {
                    Err(ParseErrorView::InvalidHeaderFormat(decode_utf8(content)))
                } else {
                    Err(ParseErrorView::LineReadFailure)
                }
            } else {
                let kb = lower_bytes(content.subrange(0, sp));
                let vb = content.subrange(sp + 2, content.len() as int);
                if valid_utf8(kb) && valid_utf8(vb) {
                    proof {
                        lemma_next_advances(data, pos);
                    }
                    spec_headers(data, p2, acc.insert(decode_utf8(kb), decode_utf8(vb)))
                } else {
                    Err(ParseErrorView::LineReadFailure)
                }
            }
        }
    }
}

/// Reads header lines until a blank line (or the stream's end), producing
/// the lower-cased key to value mapping.
pub fn parse_headers(s: &mut ByteStream) -> (r: Result<Headers, ParseError>)
    requires
        old(s).wf(),
    ensures
        final(s).wf(),
        final(s).data() == old(s).data(),
        match spec_headers(old(s).data(), old(s).pos(), Map::<Seq<char>, Seq<char>>::empty()) {
            Ok(mp) => (r matches Ok(h) && h@ == mp.0 && final(s).pos() == mp.1),
            Err(ev) => (r matches Err(e) && e@ == ev),
        },
{
    let mut headers = Headers::new();
    loop
        invariant
            old(s).wf(),
            s.wf(),
            s.data() == old(s).data(),
            spec_headers(old(s).data(), old(s).pos(), Map::<Seq<char>, Seq<char>>::empty())
                == spec_headers(old(s).data(), s.pos(), headers@),
        decreases old(s).data().len() - s.pos(),
    {
        let ghost data = s.data();
        let ghost pos = s.pos();
        let line = match s.take_line_bytes() {
            None => { return Ok(headers) },
            Some(l) => l,
        };
        proof {
            lemma_next_advances(data, pos);
        }
        if line.len() == 0 {
            return Ok(headers);
        }
        let sp = match find_sep_exec(&line) {
            Some(j) => j,
            None => {
                return match bytes_to_string(line) {
                    Some(text) => Err(ParseError::InvalidHeaderFormat(text)),
                    None => Err(ParseError::LineReadFailure),
                };
            },
        };
        let kb = lower_bytes_vec(&line, 0, sp);
        let vb = sub_bytes(&line, sp + 2, line.len());
        let key = match bytes_to_string(kb) {
            Some(k) => k,
            None => { return Err(ParseError::LineReadFailure) },
        };
        let value = match bytes_to_string(vb) {
            Some(v) => v,
            None => { return Err(ParseError::LineReadFailure) },
        };
        headers.insert(key, value);
    }
}

/// What consuming trailer lines after the final chunk yields: the position
/// after the first blank line (or the stream's end).
pub open spec fn spec_trailers(data: Seq<u8>, pos: int) -> Result<int, ParseErrorView>
    decreases data.len() - pos,
    when 0 <= pos <= data.len()
{
    if pos >= data.len() {
        Ok(pos)
    } else {
        let content = spec_line(data, pos);
        let p2 = spec_next(data, pos);
        if !valid_utf8(content) {
            Err(ParseErrorView::LineReadFailure)
        } else if content.len() == 0 {
            Ok(p2)
        } else {
            proof {
                lemma_next_advances(data, pos);
            }
            spec_trailers(data, p2)
        }
    }
}

/// Consumes and discards trailer lines until a blank line or the stream's
/// end.
fn skip_trailers(s: &mut ByteStream) -> (r: Result<(), ParseError>)
    requires
        old(s).wf(),
    ensures
        final(s).wf(),
        final(s).data() == old(s).data(),
        match spec_trailers(old(s).data(), old(s).pos()) {
            Ok(p) => (r is Ok && final(s).pos() == p),
            Err(ev) => (r matches Err(e) && e@ == ev),
        },
{
    loop
        invariant
            old(s).wf(),
            s.wf(),
            s.data() == old(s).data(),
            spec_trailers(old(s).data(), old(s).pos()) == spec_trailers(old(s).data(), s.pos()),
        decreases old(s).data().len() - s.pos(),
    {
        let ghost data = s.data();
        let ghost pos = s.pos();
        let line = match s.take_line() {
            Ok(None) => { return Ok(()) },
            Err(()) => { return Err(ParseError::LineReadFailure) },
            Ok(Some(l)) => l,
        };
        proof {
            lemma_next_advances(data, pos);
        }
        if line.as_str().unicode_len() == 0 {
            proof {
                assert(spec_line(data, pos).len() == 0) by {
                    assert(line@ == decode_utf8(spec_line(data, pos)));
                    if spec_line(data, pos).len() > 0 {
                        assert(decode_utf8(spec_line(data, pos)).len() >= 1);
                    }
                }
            }
            return Ok(());
        } else {
            proof {
                assert(spec_line(data, pos).len() > 0) by {
                    assert(line@ == decode_utf8(spec_line(data, pos)));
                }
            }
        }
    }
}

/// The first `;` in a chunk-size line, or the line's length: chunk
/// extensions are discarded from there on.
pub open spec fn find_semi(s: Seq<char>, i: int) -> int
    decreases s.len() - i,
{
    if i < 0 || i >= s.len() {
        s.len() as int
    } else if s[i] == ';' {
        i
    } else {
        find_semi(s, i + 1)
    }
}

/// The chunk-size token: the line up to the first `;`.
pub open spec fn chunk_token(s: Seq<char>) -> Seq<char> {
    s.subrange(0, find_semi(s, 0))
}

fn find_semi_exec(s: &str) -> (r: usize)
    ensures
        r == find_semi(s@, 0),
        r <= s@.len(),
{
    let n = s.unicode_len();
    let mut i: usize = 0;
    while i < n
        invariant
            0 <= i <= n,
            n == s@.len(),
            find_semi(s@, 0) == find_semi(s@, i as int),
        decreases n - i,
    {
        if s.get_char(i) == ';' {
            return i;
        }
        i += 1;
    }
    n
}

/// What decoding a chunked body from `pos` yields, given the bytes
/// accumulated so far: chunks are appended until a zero-size chunk, whose
/// trailers are consumed and discarded; an empty accumulated body is
/// reported as absent.
pub open spec fn spec_chunks(data: Seq<u8>, pos: int, acc: Seq<u8>) -> Result<
    (Option<Seq<u8>>, int),
    ParseErrorView,
>
    decreases data.len() - pos,
    when 0 <= pos <= data.len()
{
    let content = if pos >= data.len() {
        Seq::<u8>::empty()
    } else {
        spec_line(data, pos)
    };
    let p2 = if pos >= data.len() {
        pos
    } else {
        spec_next(data, pos)
    };
    if !valid_utf8(content) {
        Err(ParseErrorView::LineReadFailure)
    } else {
        let tok = chunk_token(decode_utf8(content));
        if !hex_parses(tok) {
            Err(ParseErrorView::InvalidChunkSize(tok))
        } else if hex_val(tok) == 0 {
            match spec_trailers(data, p2) {
                Ok(p3) => Ok(
                    (
                        if acc.len() == 0 {
                            None
                        } else {
                            Some(acc)
                        },
                        p3,
                    ),
                ),
                Err(e) => Err(e),
            }
        } else {
            let n = hex_val(tok) as int;
            if p2 + n <= data.len() {
                let chunk = data.subrange(p2, p2 + n);
                let p3 = p2 + n;
                let crlf = if p3 >= data.len() {
                    Seq::<u8>::empty()
                } else {
                    spec_line(data, p3)
                };
                let p4 = if p3 >= data.len() {
                    p3
                } else {
                    spec_next(data, p3)
                };
                if !valid_utf8(crlf) {
                    Err(ParseErrorView::LineReadFailure)
                } else {
                    proof {
                        if pos < data.len() {
                            lemma_next_advances(data, pos);
                            if p3 < data.len() {
                                lemma_next_advances(data, p3);
                            }
                        }
                    }
                    spec_chunks(data, p4, acc + chunk)
                }
            } else {
                Err(ParseErrorView::BodyReadFailure)
            }
        }
    }
}

/// The empty byte line decodes to no characters and no chunk-size token.
proof fn lemma_empty_line_token()
    ensures
        valid_utf8(Seq::<u8>::empty()),
        decode_utf8(Seq::<u8>::empty()) =~= Seq::<char>::empty(),
        chunk_token(Seq::<char>::empty()) =~= Seq::<char>::empty(),
        !hex_parses(Seq::<char>::empty()),
{
    assert(valid_utf8(Seq::<u8>::empty()));
    assert(decode_utf8(Seq::<u8>::empty()) =~= Seq::<char>::empty());
    assert(find_semi(Seq::<char>::empty(), 0) == 0);
    assert(chunk_token(Seq::<char>::empty()) =~= Seq::<char>::empty());
}

/// Decodes a chunked body: hex-sized chunks, a zero-size chunk ending the
/// sequence, trailers discarded; a body of zero accumulated bytes is
/// reported as absent.
pub fn read_chunked_body(s: &mut ByteStream) -> (r: Result<Option<Vec<u8>>, ParseError>)
    requires
        old(s).wf(),
    ensures
        final(s).wf(),
        final(s).data() == old(s).data(),
        match spec_chunks(old(s).data(), old(s).pos(), Seq::<u8>::empty()) {
            Ok(bp) => (r matches Ok(b) && body_view(b) == bp.0 && final(s).pos() == bp.1),
            Err(ev) => (r matches Err(e) && e@ == ev),
        },
{
    let mut body: Vec<u8> = Vec::new();
    loop
        invariant
            old(s).wf(),
            s.wf(),
            s.data() == old(s).data(),
            spec_chunks(old(s).data(), old(s).pos(), Seq::<u8>::empty()) == spec_chunks(
                old(s).data(),
                s.pos(),
                body@,
            ),
        decreases old(s).data().len() - s.pos(),
    {
        let ghost data = s.data();
        let ghost pos = s.pos();
        let line = match s.take_line() {
            Ok(None) => {
                proof {
                    lemma_empty_line_token();
                }
                return Err(ParseError::InvalidChunkSize(String::new()));
            },
            Err(()) => { return Err(ParseError::LineReadFailure) },
            Ok(Some(l)) => l,
        };
        proof {
            lemma_next_advances(data, pos);
        }
        let semi = find_semi_exec(line.as_str());
        let tok = line.as_str().substring_char(0, semi);
        let size = match parse_hex(tok) {
            None => { return Err(ParseError::InvalidChunkSize(tok.to_owned())) },
            Some(v) => v,
        };
        if size == 0 {
            let ghost p2 = s.pos();
            match skip_trailers(s) {
                Ok(()) => {
                    if body.len() == 0 {
                        return Ok(None);
                    } else {
                        return Ok(Some(body));
                    }
                },
                Err(e) => { return Err(e) },
            }
        }
        let mut chunk = match s.read_exact(size) {
            Ok(c) => c,
            Err(()) => { return Err(ParseError::BodyReadFailure) },
        };
        let ghost body_before = body@;
        body.append(&mut chunk);
        let ghost p3 = s.pos();
        match s.take_line() {
            Ok(None) => {},
            Err(()) => { return Err(ParseError::LineReadFailure) },
            Ok(Some(_)) => {},
        }
        proof {
            if p3 < data.len() {
                lemma_next_advances(data, p3);
            }
        }
    }
}

/// The view of an optional body.
pub open spec fn body_view(o: Option<Vec<u8>>) -> Option<Seq<u8>> {
    match o {
        Some(b) => Some(b@),
        None => None,
    }
}

/// What the body strategy yields, in priority order: a chunked
/// transfer-encoding, then a content-length, then no body.
pub open spec fn spec_body(data: Seq<u8>, pos: int, h: Map<Seq<char>, Seq<char>>) -> Result<
    (Option<Seq<u8>>, int),
    ParseErrorView,
> {
    if h.contains_key(te_key()) && lower_chars(h[te_key()]) == chunked_chars() {
        spec_chunks(data, pos, Seq::<u8>::empty())
    } else if h.contains_key(cl_key()) {
        let v = h[cl_key()];
        if !dec_parses(v) {
            Err(ParseErrorView::InvalidContentLength)
        } else if dec_val(v) == 0 {
            Ok((None, pos))
        } else if pos + dec_val(v) <= data.len() {
            Ok((Some(data.subrange(pos, pos + dec_val(v))), pos + dec_val(v)))
        } else {
            Err(ParseErrorView::BodyReadFailure)
        }
    } else {
        Ok((None, pos))
    }
}

/// Reads a body of exactly `content_length` bytes; a short read fails.
pub fn read_fixed_length_body(s: &mut ByteStream, content_length: usize) -> (r: Result<
    Option<Vec<u8>>,
    ParseError,
>)
    requires
        old(s).wf(),
    ensures
        final(s).wf(),
        final(s).data() == old(s).data(),
        old(s).pos() + content_length <= old(s).data().len() ==> (r matches Ok(b)
            && b matches Some(bytes) && bytes@ == old(s).data().subrange(
            old(s).pos(),
            old(s).pos() + content_length,
        ) && final(s).pos() == old(s).pos() + content_length),
        old(s).pos() + content_length > old(s).data().len() ==> (r matches Err(e) && e@
            == ParseErrorView::BodyReadFailure),
{
    match s.read_exact(content_length) {
        Ok(b) => Ok(Some(b)),
        Err(()) => Err(ParseError::BodyReadFailure),
    }
}

/// Chooses the body strategy from the headers and extracts the payload.
pub fn read_http_body(s: &mut ByteStream, headers: &Headers) -> (r: Result<
    Option<Vec<u8>>,
    ParseError,
>)
    requires
        old(s).wf(),
    ensures
        final(s).wf(),
        final(s).data() == old(s).data(),
        match spec_body(old(s).data(), old(s).pos(), headers@) {
            Ok(bp) => (r matches Ok(b) && body_view(b) == bp.0 && final(s).pos() == bp.1),
            Err(ev) => (r matches Err(e) && e@ == ev),
        },
{
    let te_name = String::from_str("transfer-encoding");
    if let Some(te) = headers.get(&te_name) {
        if is_chunked_value(te.as_str()) {
            return read_chunked_body(s);
        }
    }
    let cl_name = String::from_str("content-length");
    if let Some(cl) = headers.get(&cl_name) {
        let n = match parse_dec(cl.as_str()) {
            None => { return Err(ParseError::InvalidContentLength) },
            Some(v) => v,
        };
        if n == 0 {
            return Ok(None);
        }
        return read_fixed_length_body(s, n);
    }
    Ok(None)
}

/// What parsing a whole received byte sequence yields: the request line,
/// the header block, the body chosen by the headers, and the validating
/// build — or the first failure.
pub open spec fn spec_parse(data: Seq<u8>) -> Result<RequestView, ParseErrorView> {
    match spec_request_line(data, 0) {
        Err(e) => Err(e),
        Ok(tp) => match spec_headers(data, tp.1, Map::<Seq<char>, Seq<char>>::empty()) {
            Err(e) => Err(e),
            Ok(hp) => match spec_body(data, hp.1, hp.0) {
                Err(e) => Err(e),
                Ok(bp) => {
                    let b = BuilderView {
                        method: Some(tp.0.0),
                        path: Some(tp.0.1),
                        version: Some(tp.0.2),
                        headers: hp.0,
                        body: bp.0,
                    };
                    match spec_build(b) {
                        Ok(v) => Ok(v),
                        Err(be) => Err(spec_error_of_build(be)),
                    }
                },
            },
        },
    }
}

/// Parses one request from the bytes received on a connection.
pub fn parse_http_request(input: &[u8]) -> (r: Result<HttpRequest, ParseError>)
    ensures
        match spec_parse(input@) {
            Ok(v) => (r matches Ok(q) && q@ == v),
            Err(ev) => (r matches Err(e) && e@ == ev),
        },
{
    let mut stream = ByteStream::new(vstd::slice::slice_to_vec(input));
    let (method, path, version) = match parse_request_line(&mut stream) {
        Ok(t) => t,
        Err(e) => { return Err(e) },
    };
    let headers = match parse_headers(&mut stream) {
        Ok(h) => h,
        Err(e) => { return Err(e) },
    };
    let body = match read_http_body(&mut stream, &headers) {
        Ok(b) => b,
        Err(e) => { return Err(e) },
    };
    let request = HttpRequest::builder().method(method).path(path).version(version).body(
        body,
    ).headers(headers).build();
    match request {
        Ok(q) => Ok(q),
        Err(e) => Err(error_of_build(e)),
    }
}

/// Law: with neither a `transfer-encoding` nor a `content-length` header,
/// the body is absent and the stream is not advanced.
pub proof fn lemma_no_indicator_no_body(data: Seq<u8>, pos: int, h: Map<Seq<char>, Seq<char>>)
    requires
        !h.contains_key(te_key()),
        !h.contains_key(cl_key()),
    ensures
        spec_body(data, pos, h) == Ok::<(Option<Seq<u8>>, int), ParseErrorView>((None, pos)),
{
}

/// Law: a request line of other than three whitespace-separated tokens
/// fails the whole parse with the request-line format error, whatever
/// follows the line.
pub proof fn lemma_request_line_needs_three_tokens(data: Seq<u8>)
    requires
        data.len() > 0,
        valid_utf8(spec_line(data, 0)),
        tokens(decode_utf8(spec_line(data, 0))).len() != 3,
    ensures
        spec_parse(data) == Err::<RequestView, ParseErrorView>(ParseErrorView::InvalidRequestLine),
{
}

/// Law: with no chunked transfer-encoding and a well-formed positive
/// `content-length` of `n`, the body is exactly the next `n` bytes of the
/// stream when they are there, and a short stream is a body-read failure.
pub proof fn lemma_content_length_body(data: Seq<u8>, pos: int, h: Map<Seq<char>, Seq<char>>)
    requires
        h.contains_key(te_key()) ==> lower_chars(h[te_key()]) != chunked_chars(),
        h.contains_key(cl_key()),
        dec_parses(h[cl_key()]),
        dec_val(h[cl_key()]) > 0,
    ensures
        pos + dec_val(h[cl_key()]) <= data.len() ==> spec_body(data, pos, h) == Ok::<
            (Option<Seq<u8>>, int),
            ParseErrorView,
        >((Some(data.subrange(pos, pos + dec_val(h[cl_key()]))), pos + dec_val(h[cl_key()]))),
        pos + dec_val(h[cl_key()]) > data.len() ==> spec_body(data, pos, h) == Err::<
            (Option<Seq<u8>>, int),
            ParseErrorView,
        >(ParseErrorView::BodyReadFailure),
{
}

} // verus!
