//! What the writer encodes, the reader decodes: an array of bulk strings, as
//! [`array_text`] writes it and UTF-8 encodes it, reads back as the same items.
//! And what the reader has decided on some bytes, more bytes do not change.
use crate::resp::parser::{find_newline, header_value, line_text, lossy_text, parse_bulks, parse_model, ParseModel};
use crate::resp::writer::{array_text, bulk_text, bulks_text};
use crate::store::byte_len;
use crate::text::{decimal, is_digit, is_whitespace, lemma_decimal_digits, lemma_parse_decimal, trim, trim_end, trim_start};
use vstd::prelude::*;
use vstd::utf8::{
    decode_utf8, encode_utf8, encode_utf8_decode_utf8, encode_utf8_valid_utf8, is_ascii_chars,
    is_ascii_chars_encode_utf8, valid_utf8,
};

verus! {

/// The UTF-8 encoding of a concatenation is the concatenation of the encodings.
proof fn lemma_encode_concat(a: Seq<char>, b: Seq<char>)
    ensures
        encode_utf8(a + b) == encode_utf8(a) + encode_utf8(b),
    decreases a.len(),
{
    if a.len() == 0 {
        assert(a + b =~= b);
        assert(encode_utf8(a) + encode_utf8(b) =~= encode_utf8(b));
    } else {
        lemma_encode_concat(a.drop_first(), b);
        assert((a + b).drop_first() =~= a.drop_first() + b);
        assert((a + b)[0] == a[0]);
        assert(encode_utf8(a + b) =~= encode_utf8(a) + encode_utf8(b));
    }
}

/// `find_newline` stops at the first `\n` from `from` on.
proof fn lemma_find_newline_at(b: Seq<u8>, from: int, k: int)
    requires
        0 <= from <= k < b.len(),
        b[k] == 10,
        forall|j: int| from <= j < k ==> b[j] != 10,
    ensures
        find_newline(b, from) == k,
    decreases k - from,
{
    if from < k {
        lemma_find_newline_at(b, from + 1, k);
    }
}

/// Trimming `s\r\n` gives `s` when `s` neither starts nor ends with whitespace.
proof fn lemma_trim_crlf(s: Seq<char>)
    requires
        s.len() > 0,
        !is_whitespace(s[0]),
        !is_whitespace(s.last()),
    ensures
        trim(s + "\r\n"@) == s,
{
    reveal_strlit("\r\n");
    let t = s + "\r\n"@;
    assert(t[0] == s[0]);
    assert(trim_start(t) == t);
    assert(t.last() == '\n');
    assert(t.drop_last() =~= s.push('\r'));
    assert(t.drop_last().last() == '\r');
    assert(t.drop_last().drop_last() =~= s);
    assert(trim_end(t) == trim_end(t.drop_last()));
    assert(trim_end(t.drop_last()) == trim_end(s));
}

/// The characters of a header line: the tag, the number in decimal, `\r\n`.
spec fn header_chars(tag: char, n: nat) -> Seq<char> {
    seq![tag] + decimal(n) + "\r\n"@
}

/// A header line written at `pos` is found and read back as its number.
#[verifier::spinoff_prover]
proof fn lemma_header(b: Seq<u8>, pos: int, tag: char, n: nat)
    requires
        tag == '*' || tag == '$',
        n <= usize::MAX,
        0 <= pos,
        pos + header_chars(tag, n).len() <= b.len(),
        b.subrange(pos, pos + header_chars(tag, n).len()) == encode_utf8(header_chars(tag, n)),
    ensures
        encode_utf8(header_chars(tag, n)).len() == header_chars(tag, n).len(),
        find_newline(b, pos) == pos + header_chars(tag, n).len() - 1,
        line_text(b, pos, pos + header_chars(tag, n).len() - 1) == Some(seq![tag] + decimal(n)),
        header_value(seq![tag] + decimal(n), tag) == Some(n),
{
    reveal_strlit("\r\n");
    lemma_decimal_digits(n);
    let s = seq![tag] + decimal(n);
    let t = header_chars(tag, n);
    let h = t.len() as int;
    assert(t == s + "\r\n"@);
    assert(t[h - 2] == '\r');
    assert(t[h - 1] == '\n');
    assert forall|i: int| 0 <= i < h - 1 implies #[trigger] t[i] != '\n' && '\0' <= t[i] <= '\u{7f}' by {
        if 0 < i < s.len() {
            assert(t[i] == decimal(n)[i - 1]);
            assert(is_digit(decimal(n)[i - 1]));
        }
    }
    assert(is_ascii_chars(t));
    is_ascii_chars_encode_utf8(t);
    let e = encode_utf8(t);
    assert forall|j: int| pos <= j < pos + h - 1 implies b[j] != 10 by {
        assert(b[j] == b.subrange(pos, pos + h)[j - pos]);
        assert(e[j - pos] == t[j - pos] as u8);
    }
    assert(b[pos + h - 1] == b.subrange(pos, pos + h)[h - 1]);
    assert(e[h - 1] == t[h - 1] as u8);
    lemma_find_newline_at(b, pos, pos + h - 1);
    encode_utf8_valid_utf8(t);
    encode_utf8_decode_utf8(t);
    assert(b.subrange(pos, pos + h - 1 + 1) == e);
    assert(valid_utf8(e) && decode_utf8(e) == t);
    assert(s.last() == decimal(n).last());
    assert(is_digit(decimal(n)[decimal(n).len() - 1]));
    lemma_trim_crlf(s);
    assert(s.drop_first() =~= decimal(n));
    lemma_parse_decimal(n, usize::MAX as nat);
}

/// The bulk strings of a non-empty list: the first one, then the others.
proof fn lemma_bulks_front(items: Seq<Seq<char>>)
    requires
        items.len() > 0,
    ensures
        bulks_text(items) == bulk_text(items[0]) + bulks_text(items.drop_first()),
    decreases items.len(),
{
    if items.len() == 1 {
        assert(items.drop_last().len() == 0);
        assert(items.drop_first().len() == 0);
        assert(bulks_text(items.drop_last()) == Seq::<char>::empty());
        assert(items.last() == items[0]);
        assert(bulks_text(items) =~= bulk_text(items[0]));
        assert(bulk_text(items[0]) + bulks_text(items.drop_first()) =~= bulk_text(items[0]));
    } else {
        let init = items.drop_last();
        lemma_bulks_front(init);
        assert(init[0] == items[0]);
        assert(items.drop_first().drop_last() =~= init.drop_first());
        assert(items.drop_first().last() == items.last());
        assert(bulks_text(items) =~= bulk_text(items[0]) + bulks_text(items.drop_first()));
    }
}

/// Whether every item's UTF-8 form has a length that fits in `usize`.
pub open spec fn lengths_fit(items: Seq<Seq<char>>) -> bool {
    forall|i: int| 0 <= i < items.len() ==> encode_utf8(#[trigger] items[i]).len() <= usize::MAX
}

/// Bulk strings written from `pos` on read back as the same items.
#[verifier::spinoff_prover]
#[verifier::rlimit(60)]
proof fn lemma_bulks_parse(b: Seq<u8>, pos: int, items: Seq<Seq<char>>, acc: Seq<Seq<char>>)
    requires
        0 <= pos,
        pos + encode_utf8(bulks_text(items)).len() <= b.len(),
        b.subrange(pos, pos + encode_utf8(bulks_text(items)).len()) == encode_utf8(bulks_text(items)),
        lengths_fit(items),
    ensures
        parse_bulks(b, pos, items.len(), acc) == ParseModel::Done(
            acc + items,
            (pos + encode_utf8(bulks_text(items)).len()) as nat,
        ),
    decreases items.len(),
{
    reveal_strlit("$");
    reveal_strlit("\r\n");
    if items.len() == 0 {
        assert(acc + items =~= acc);
    } else {
        let v = items[0];
        let rest = items.drop_first();
        lemma_bulks_front(items);
        let len = encode_utf8(v).len();
        assert(len <= usize::MAX);
        assert(byte_len(v) as nat == len);
        let hdr = header_chars('$', len);
        let crlf = "\r\n"@;
        assert(bulk_text(v) =~= hdr + v + crlf);
        lemma_encode_concat(hdr, v);
        lemma_encode_concat(hdr + v, crlf);
        lemma_encode_concat(bulk_text(v), bulks_text(rest));
        is_ascii_chars_encode_utf8(crlf);
        let eh = encode_utf8(hdr);
        let ev = encode_utf8(v);
        let er = encode_utf8(bulks_text(rest));
        let e = encode_utf8(bulks_text(items));
        assert(e == eh + ev + encode_utf8(crlf) + er);
        assert(encode_utf8(crlf).len() == 2);
        let whole = b.subrange(pos, pos + e.len());
        lemma_header_len(len);
        assert(b.subrange(pos, pos + hdr.len()) =~= eh) by {
            assert forall|i: int| 0 <= i < eh.len() implies b.subrange(pos, pos + hdr.len())[i] == eh[i] by {
                assert(whole[i] == e[i]);
            }
        }
        lemma_header(b, pos, '$', len);
        let h = hdr.len() as int;
        let nl = pos + h - 1;
        assert(b.subrange(nl + 1, nl + 1 + len) =~= ev) by {
            assert forall|i: int| 0 <= i < ev.len() implies b.subrange(nl + 1, nl + 1 + len)[i] == ev[i] by {
                assert(whole[h + i] == e[h + i]);
            }
        }
        encode_utf8_valid_utf8(v);
        encode_utf8_decode_utf8(v);
        assert(lossy_text(ev) == v);
        let p2 = nl + 1 + len + 2;
        assert(b.subrange(p2, p2 + er.len()) =~= er) by {
            assert forall|i: int| 0 <= i < er.len() implies b.subrange(p2, p2 + er.len())[i] == er[i] by {
                assert(whole[h + len + 2 + i] == e[h + len + 2 + i]);
            }
        }
        assert(lengths_fit(rest)) by {
            assert forall|i: int| 0 <= i < rest.len() implies encode_utf8(#[trigger] rest[i]).len() <= usize::MAX by {
                assert(rest[i] == items[i + 1]);
            }
        }
        lemma_bulks_parse(b, p2, rest, acc.push(v));
        assert(acc.push(v) + rest =~= acc + items);
    }
}

/// The length of a header line's encoding is its length in characters.
proof fn lemma_header_len(n: nat)
    ensures
        encode_utf8(header_chars('$', n)).len() == header_chars('$', n).len(),
        encode_utf8(header_chars('*', n)).len() == header_chars('*', n).len(),
{
    reveal_strlit("\r\n");
    lemma_decimal_digits(n);
    let t1 = header_chars('$', n);
    let t2 = header_chars('*', n);
    assert forall|i: int| 0 <= i < t1.len() implies '\0' <= #[trigger] t1[i] <= '\u{7f}' by {
        if 0 < i < t1.len() - 2 {
            assert(t1[i] == decimal(n)[i - 1]);
            assert(is_digit(decimal(n)[i - 1]));
        }
    }
    assert forall|i: int| 0 <= i < t2.len() implies '\0' <= #[trigger] t2[i] <= '\u{7f}' by {
        if 0 < i < t2.len() - 2 {
            assert(t2[i] == decimal(n)[i - 1]);
            assert(is_digit(decimal(n)[i - 1]));
        }
    }
    is_ascii_chars_encode_utf8(t1);
    is_ascii_chars_encode_utf8(t2);
}

/// A RESP array of bulk strings, as the writer produces it, reads back as the
/// same items and takes exactly its own bytes, whatever follows it.
#[verifier::spinoff_prover]
pub proof fn lemma_array_parses_back(items: Seq<Seq<char>>, rest: Seq<u8>)
    requires
        items.len() <= usize::MAX,
        lengths_fit(items),
    ensures
        parse_model(encode_utf8(array_text(items)) + rest) == ParseModel::Done(
            items,
            encode_utf8(array_text(items)).len(),
        ),
{
    reveal_strlit("*");
    reveal_strlit("\r\n");
    let n = items.len();
    let hdr = header_chars('*', n);
    assert(array_text(items) =~= hdr + bulks_text(items));
    lemma_encode_concat(hdr, bulks_text(items));
    let eh = encode_utf8(hdr);
    let eb = encode_utf8(bulks_text(items));
    let b = encode_utf8(array_text(items)) + rest;
    lemma_header_len(n);
    assert(b.subrange(0, hdr.len() as int) =~= eh);
    lemma_header(b, 0, '*', n);
    let h = hdr.len() as int;
    assert(b.subrange(h, h + eb.len()) =~= eb);
    lemma_bulks_parse(b, h, items, Seq::empty());
    assert(Seq::<Seq<char>>::empty() + items =~= items);
}

/// A `\n` found in `b` is found in `b` followed by anything.
proof fn lemma_find_newline_ext(b: Seq<u8>, r: Seq<u8>, from: int)
    requires
        0 <= from,
        find_newline(b, from) < b.len(),
    ensures
        find_newline(b + r, from) == find_newline(b, from),
    decreases b.len() - from,
{
    assert((b + r)[from] == b[from]);
    if b[from] != 10 {
        lemma_find_newline_ext(b, r, from + 1);
    }
}

proof fn lemma_bulks_ext(b: Seq<u8>, r: Seq<u8>, pos: int, remaining: nat, acc: Seq<Seq<char>>)
    requires
        0 <= pos,
        !(parse_bulks(b, pos, remaining, acc) is More),
    ensures
        parse_bulks(b + r, pos, remaining, acc) == parse_bulks(b, pos, remaining, acc),
    decreases remaining,
{
    if remaining > 0 {
        let nl = find_newline(b, pos);
        lemma_find_newline_ext(b, r, pos);
        lemma_find_newline_bounds(b, pos);
        assert((b + r).subrange(pos, nl + 1) =~= b.subrange(pos, nl + 1));
        match line_text(b, pos, nl) {
            None => {},
            Some(t) => match header_value(t, '$') {
                None => {},
                Some(len) => {
                    assert((b + r).subrange(nl + 1, nl + 1 + len) =~= b.subrange(nl + 1, nl + 1 + len));
                    lemma_bulks_ext(
                        b,
                        r,
                        nl + 1 + len + 2,
                        (remaining - 1) as nat,
                        acc.push(lossy_text(b.subrange(nl + 1, nl + 1 + len))),
                    );
                },
            },
        }
    }
}

proof fn lemma_find_newline_bounds(b: Seq<u8>, from: int)
    requires
        0 <= from,
    ensures
        find_newline(b, from) < b.len() ==> from <= find_newline(b, from),
    decreases b.len() - from,
{
    if from < b.len() && b[from] != 10 {
        lemma_find_newline_bounds(b, from + 1);
    }
}

/// Reading is decided by the bytes it has used: a whole command, or bytes that
/// cannot start one, is read the same whatever bytes come after. Only a read
/// that needs more bytes can change as more arrive.
pub proof fn lemma_parse_ignores_later_bytes(b: Seq<u8>, rest: Seq<u8>)
    requires
        !(parse_model(b) is More),
    ensures
        parse_model(b + rest) == parse_model(b),
        parse_model(b) matches ParseModel::Done(_, used) ==> used <= b.len(),
{
    let nl = find_newline(b, 0);
    lemma_find_newline_ext(b, rest, 0);
    lemma_find_newline_bounds(b, 0);
    assert((b + rest).subrange(0, nl + 1) =~= b.subrange(0, nl + 1));
    match line_text(b, 0, nl) {
        None => {},
        Some(t) => match header_value(t, '*') {
            None => {},
            Some(count) => {
                lemma_bulks_ext(b, rest, nl + 1, count, Seq::empty());
                lemma_bulks_used(b, nl + 1, count, Seq::empty());
            },
        },
    }
}

proof fn lemma_bulks_used(b: Seq<u8>, pos: int, remaining: nat, acc: Seq<Seq<char>>)
    requires
        0 <= pos <= b.len(),
    ensures
        parse_bulks(b, pos, remaining, acc) matches ParseModel::Done(_, used) ==> used <= b.len(),
    decreases remaining,
{
    if remaining > 0 {
        let nl = find_newline(b, pos);
        lemma_find_newline_bounds(b, pos);
        match line_text(b, pos, nl) {
            None => {},
            Some(t) => match header_value(t, '$') {
                None => {},
                Some(len) => {
                    if nl < b.len() && b.len() - (nl + 1) >= len + 2 {
                        lemma_bulks_used(
                            b,
                            nl + 1 + len + 2,
                            (remaining - 1) as nat,
                            acc.push(lossy_text(b.subrange(nl + 1, nl + 1 + len))),
                        );
                    }
                },
            },
        }
    }
}

/// A first line that, once trimmed, does not start with `*` (and reads as
/// text) is refused at once, whatever follows it.
pub proof fn lemma_parse_refuses_non_array(b: Seq<u8>)
    requires
        find_newline(b, 0) < b.len(),
        line_text(b, 0, find_newline(b, 0)) matches Some(t) && !(t.len() > 0 && t[0] == '*'),
    ensures
        parse_model(b) == ParseModel::Bad,
{
}

} // verus!
