//! Reading one RESP command (an array of bulk strings) from the bytes a client
//! has sent so far.
use crate::text::{chars_of, parse_unsigned, parse_unsigned_chars, trim, trim_bounds};
use vstd::prelude::*;
use vstd::utf8::{decode_utf8, valid_utf8};

verus! {

/// What `String::from_utf8_lossy` gives for `bytes`: the decoded text with each
/// invalid sequence replaced by U+FFFD.
pub uninterp spec fn utf8_lossy(bytes: Seq<u8>) -> Seq<char>;

/// The text that `String::from_utf8_lossy` gives: the plain decoding of valid
/// UTF-8, else the named lossy decoding.
pub open spec fn lossy_text(bytes: Seq<u8>) -> Seq<char> {
    if valid_utf8(bytes) {
        decode_utf8(bytes)
    } else {
        utf8_lossy(bytes)
    }
}

/// `String::from_utf8_lossy(bytes)` as an owned string. Trusted: valid UTF-8
/// comes back decoded unchanged (as std documents); for other bytes the result
/// is the named lossy decoding of `bytes`.
#[verifier::external_body]
fn decode_lossy(bytes: &[u8]) -> (s: String)
    ensures
        valid_utf8(bytes@) ==> s@ == decode_utf8(bytes@),
        !valid_utf8(bytes@) ==> s@ == utf8_lossy(bytes@),
{
    String::from_utf8_lossy(bytes).into_owned()
}

/// `std::str::from_utf8(bytes).ok()`. Trusted: std returns the text exactly when
/// the bytes are valid UTF-8, and the text is their decoding.
#[verifier::external_body]
fn decode_strict(bytes: &[u8]) -> (r: Option<&str>)
    ensures
        r is Some <==> valid_utf8(bytes@),
        r matches Some(s) ==> s@ == decode_utf8(bytes@),
{
    std::str::from_utf8(bytes).ok()
}

/// The position of the first `\n` in `b` at or after `from`, or `b.len()`.
pub open spec fn find_newline(b: Seq<u8>, from: int) -> int
    decreases b.len() - from,
{
    if from < 0 || from >= b.len() {
        b.len() as int
    } else if b[from] == 10 {
        from
    } else {
        find_newline(b, from + 1)
    }
}

/// The trimmed text of the line `b[from..=nl]`, if it is valid UTF-8.
pub open spec fn line_text(b: Seq<u8>, from: int, nl: int) -> Option<Seq<char>> {
    let bytes = b.subrange(from, nl + 1);
    if valid_utf8(bytes) {
        Some(trim(decode_utf8(bytes)))
    } else {
        None
    }
}

/// The number on a header line: the tag character, then what `usize` parses.
pub open spec fn header_value(t: Seq<char>, tag: char) -> Option<nat> {
    if t.len() > 0 && t[0] == tag {
        parse_unsigned(t.drop_first(), usize::MAX as nat)
    } else {
        None
    }
}

/// The model of a read attempt.
pub enum ParseModel {
    /// A whole command: its parts and the number of bytes it took.
    Done(Seq<Seq<char>>, nat),
    /// The bytes end before the command does.
    More,
    /// The bytes cannot start a command.
    Bad,
}

/// Reading `remaining` more bulk strings from `b` at `pos`, after `acc`.
pub open spec fn parse_bulks(b: Seq<u8>, pos: int, remaining: nat, acc: Seq<Seq<char>>) -> ParseModel
    decreases remaining,
{
    if remaining == 0 {
        ParseModel::Done(acc, pos as nat)
    } else {
        let nl = find_newline(b, pos);
        if nl >= b.len() {
            ParseModel::More
        } else {
            match line_text(b, pos, nl) {
                None => ParseModel::Bad,
                Some(t) => match header_value(t, '$') {
                    None => ParseModel::Bad,
                    Some(len) => if b.len() - (nl + 1) < len + 2 {
                        ParseModel::More
                    } else {
                        parse_bulks(
                            b,
                            nl + 1 + len + 2,
                            (remaining - 1) as nat,
                            acc.push(lossy_text(b.subrange(nl + 1, nl + 1 + len))),
                        )
                    },
                },
            }
        }
    }
}

/// Reading one command from the start of `b`: a line `*count`, then `count`
/// times a line `$len` followed by `len` bytes of data and two bytes that are
/// skipped. Lines end at `\n`, must be UTF-8, and are trimmed before they are
/// read.
pub open spec fn parse_model(b: Seq<u8>) -> ParseModel {
    let nl = find_newline(b, 0);
    if nl >= b.len() {
        ParseModel::More
    } else {
        match line_text(b, 0, nl) {
            None => ParseModel::Bad,
            Some(t) => match header_value(t, '*') {
                None => ParseModel::Bad,
                Some(count) => parse_bulks(b, nl + 1, count, Seq::empty()),
            },
        }
    }
}

/// The result of a read attempt.
pub enum ParseOutcome {
    /// A whole command: its parts and the number of bytes it took.
    Complete(Vec<String>, usize),
    /// More bytes are needed.
    Incomplete,
    /// The bytes cannot start a command; the connection should end.
    Invalid,
}

/// The model of a read attempt's result.
pub open spec fn outcome_view(o: &ParseOutcome) -> ParseModel {
    match o {
        ParseOutcome::Complete(parts, used) => ParseModel::Done(crate::keymap::str_views(parts@), *used as nat),
        ParseOutcome::Incomplete => ParseModel::More,
        ParseOutcome::Invalid => ParseModel::Bad,
    }
}

fn next_newline(b: &[u8], from: usize) -> (r: usize)
    requires
        from <= b@.len(),
    ensures
        r == find_newline(b@, from as int),
        from <= r <= b@.len(),
        r < b@.len() ==> b@[r as int] == 10,
{
    let mut i = from;
    while i < b.len() && b[i] != 10
        invariant
            from <= i <= b@.len(),
            find_newline(b@, from as int) == find_newline(b@, i as int),
        decreases b.len() - i,
    {
        i = i + 1;
    }
    i
}

/// Reads the header line `b[from..=nl]` with tag `tag`.
fn read_header(b: &[u8], from: usize, nl: usize, tag: char) -> (r: Option<usize>)
    requires
        from <= nl < b@.len(),
    ensures
        match r {
            Some(v) => line_text(b@, from as int, nl as int) matches Some(t) && header_value(t, tag) == Some(v as nat),
            None => !(line_text(b@, from as int, nl as int) matches Some(t) && header_value(t, tag) is Some),
        },
{
    let n = b.len();
    assert(nl < n);
    let line = match decode_strict(slice_range(b, from, nl + 1)) {
        Some(l) => l,
        None => {
            return None;
        },
    };
    let cs = chars_of(line);
    let (a, e) = trim_bounds(cs.as_slice(), 0, cs.len());
    assert(cs@.subrange(0, cs@.len() as int) == cs@);
    let ghost t = cs@.subrange(a as int, e as int);
    if a < e && cs[a] == tag {
        assert(t.drop_first() == cs@.subrange(a + 1, e as int));
        match parse_unsigned_chars(cs.as_slice(), a + 1, e, usize::MAX as u64) {
            Some(v) => Some(v as usize),
            None => None,
        }
    } else {
        None
    }
}

/// `b[from..to]` (slice indexing).
pub fn slice_range(b: &[u8], from: usize, to: usize) -> (r: &[u8])
    requires
        from <= to <= b@.len(),
    ensures
        r@ == b@.subrange(from as int, to as int),
{
    vstd::slice::slice_subrange(b, from, to)
}

/// Reads one command from the start of `b` (see [`parse_model`]).
pub fn parse_command(b: &[u8]) -> (r: ParseOutcome)
    ensures
        outcome_view(&r) == parse_model(b@),
{
    let nl = next_newline(b, 0);
    if nl >= b.len() {
        return ParseOutcome::Incomplete;
    }
    let count = match read_header(b, 0, nl, '*') {
        Some(c) => c,
        None => {
            return ParseOutcome::Invalid;
        },
    };
    let mut parts: Vec<String> = Vec::new();
    assert(crate::keymap::str_views(parts@) =~= Seq::<Seq<char>>::empty());
    let mut pos = nl + 1;
    let mut remaining = count;
    while remaining > 0
        invariant
            pos <= b@.len(),
            parse_model(b@) == parse_bulks(b@, pos as int, remaining as nat, crate::keymap::str_views(parts@)),
        decreases remaining,
    {
        let nl = next_newline(b, pos);
        if nl >= b.len() {
            return ParseOutcome::Incomplete;
        }
        let len = match read_header(b, pos, nl, '$') {
            Some(l) => l,
            None => {
                return ParseOutcome::Invalid;
            },
        };
        let start = nl + 1;
        if b.len() - start < len || b.len() - start - len < 2 {
            return ParseOutcome::Incomplete;
        }
        let value = decode_lossy(slice_range(b, start, start + len));
        let ghost prev = parts@;
        parts.push(value);
        assert(crate::keymap::str_views(parts@) =~= crate::keymap::str_views(prev).push(value@));
        pos = start + len + 2;
        remaining = remaining - 1;
    }
    ParseOutcome::Complete(parts, pos)
}

} // verus!
