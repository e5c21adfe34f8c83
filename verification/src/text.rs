//! Character-level text utilities: conversion between strings and character
//! vectors, whitespace trimming, decimal formatting and parsing.
use vstd::prelude::*;

verus! {

/// Appends one character to a string (`String::push`).
/// Trusted: std documents that `push` appends the given `char` to the end.
#[verifier::external_body]
fn push_char(s: &mut String, c: char)
    ensures
        final(s)@ == old(s)@.push(c),
{
    s.push(c);
}

/// The characters of `s`, in order.
pub fn chars_of(s: &str) -> (v: Vec<char>)
    ensures
        v@ == s@,
{
    let mut v: Vec<char> = Vec::new();
    for c in it: s.chars()
        invariant
            v@ == it.seq().take(it.index() as int),
    {
        v.push(c);
    }
    v
}

/// Appends the characters `cs[from..to]` to `s`.
pub fn push_chars(s: &mut String, cs: &[char], from: usize, to: usize)
    requires
        from <= to <= cs@.len(),
    ensures
        final(s)@ == old(s)@ + cs@.subrange(from as int, to as int),
{
    let mut i = from;
    while i < to
        invariant
            from <= i <= to <= cs@.len(),
            s@ == old(s)@ + cs@.subrange(from as int, i as int),
        decreases to - i,
    {
        push_char(s, cs[i]);
        assert(cs@.subrange(from as int, i + 1) == cs@.subrange(from as int, i as int).push(cs@[i as int]));
        i = i + 1;
    }
}

/// A new string holding `cs[from..to]`.
pub fn string_of(cs: &[char], from: usize, to: usize) -> (s: String)
    requires
        from <= to <= cs@.len(),
    ensures
        s@ == cs@.subrange(from as int, to as int),
{
    let mut s = String::new();
    push_chars(&mut s, cs, from, to);
    s
}

/// A new string holding the characters of `t`.
pub fn owned(t: &str) -> (s: String)
    ensures
        s@ == t@,
{
    String::from_str(t)
}

/// Whether `a` and `b` hold the same characters.
pub fn str_eq(a: &str, b: &str) -> (r: bool)
    ensures
        r == (a@ == b@),
{
    let x = chars_of(a);
    let y = chars_of(b);
    if x.len() != y.len() {
        return false;
    }
    let mut i: usize = 0;
    while i < x.len()
        invariant
            x@ == a@,
            y@ == b@,
            x@.len() == y@.len(),
            i <= x@.len(),
            forall|j: int| 0 <= j < i ==> x@[j] == y@[j],
        decreases x.len() - i,
    {
        if x[i] != y[i] {
            return false;
        }
        i = i + 1;
    }
    assert(x@ =~= y@);
    true
}


/// Unicode `White_Space` (the set that `char::is_whitespace` and `str::trim` use).
pub open spec fn is_whitespace(c: char) -> bool {
    ||| ('\u{9}' <= c && c <= '\u{d}')
    ||| c == ' '
    ||| c == '\u{85}'
    ||| c == '\u{a0}'
    ||| c == '\u{1680}'
    ||| ('\u{2000}' <= c && c <= '\u{200a}')
    ||| c == '\u{2028}'
    ||| c == '\u{2029}'
    ||| c == '\u{202f}'
    ||| c == '\u{205f}'
    ||| c == '\u{3000}'
}

/// Executable test for [`is_whitespace`].
pub fn char_is_whitespace(c: char) -> (r: bool)
    ensures
        r == is_whitespace(c),
{
    ('\u{9}' <= c && c <= '\u{d}') || c == ' ' || c == '\u{85}' || c == '\u{a0}' || c == '\u{1680}'
        || ('\u{2000}' <= c && c <= '\u{200a}') || c == '\u{2028}' || c == '\u{2029}'
        || c == '\u{202f}' || c == '\u{205f}' || c == '\u{3000}'
}

/// `s` without its leading whitespace.
pub open spec fn trim_start(s: Seq<char>) -> Seq<char>
    decreases s.len(),
{
    if s.len() > 0 && is_whitespace(s[0]) {
        trim_start(s.drop_first())
    } else {
        s
    }
}

/// `s` without its trailing whitespace.
pub open spec fn trim_end(s: Seq<char>) -> Seq<char>
    decreases s.len(),
{
    if s.len() > 0 && is_whitespace(s.last()) {
        trim_end(s.drop_last())
    } else {
        s
    }
}

/// `s` without leading and trailing whitespace, as `str::trim` gives it.
pub open spec fn trim(s: Seq<char>) -> Seq<char> {
    trim_end(trim_start(s))
}

/// The bounds `(a, b)` of `trim(cs[from..to])` inside `cs`.
pub fn trim_bounds(cs: &[char], from: usize, to: usize) -> (r: (usize, usize))
    requires
        from <= to <= cs@.len(),
    ensures
        from <= r.0 <= r.1 <= to,
        cs@.subrange(r.0 as int, r.1 as int) == trim(cs@.subrange(from as int, to as int)),
{
    let mut a = from;
    while a < to && char_is_whitespace(cs[a])
        invariant
            from <= a <= to <= cs@.len(),
            trim_start(cs@.subrange(from as int, to as int)) == trim_start(cs@.subrange(a as int, to as int)),
        decreases to - a,
    {
        assert(cs@.subrange(a as int, to as int).drop_first() == cs@.subrange(a + 1, to as int));
        a = a + 1;
    }
    assert(trim_start(cs@.subrange(a as int, to as int)) == cs@.subrange(a as int, to as int));
    let mut b = to;
    while b > a && char_is_whitespace(cs[b - 1])
        invariant
            from <= a <= b <= to <= cs@.len(),
            trim_end(cs@.subrange(a as int, to as int)) == trim_end(cs@.subrange(a as int, b as int)),
        decreases b - a,
    {
        assert(cs@.subrange(a as int, b as int).drop_last() == cs@.subrange(a as int, b - 1));
        b = b - 1;
    }
    assert(trim_end(cs@.subrange(a as int, b as int)) == cs@.subrange(a as int, b as int));
    (a, b)
}

/// A new string holding `trim(t)`.
pub fn trim_str(t: &str) -> (s: String)
    ensures
        s@ == trim(t@),
{
    let cs = chars_of(t);
    let (a, b) = trim_bounds(cs.as_slice(), 0, cs.len());
    assert(cs@.subrange(0, cs@.len() as int) == cs@);
    string_of(cs.as_slice(), a, b)
}

/// `c` with an ASCII upper-case letter mapped to lower case (`char::to_ascii_lowercase`).
pub open spec fn ascii_lower(c: char) -> char {
    if 'A' <= c && c <= 'Z' {
        ((c as u32) + 32) as char
    } else {
        c
    }
}

/// Equality up to ASCII case, as `str::eq_ignore_ascii_case` decides it: non-ASCII
/// characters must match exactly.
pub open spec fn eq_ignore_ascii_case_spec(a: Seq<char>, b: Seq<char>) -> bool {
    &&& a.len() == b.len()
    &&& forall|i: int| 0 <= i < a.len() ==> ascii_lower(#[trigger] a[i]) == ascii_lower(b[i])
}

fn char_ascii_lower(c: char) -> (r: char)
    ensures
        r == ascii_lower(c),
{
    if 'A' <= c && c <= 'Z' {
        let u = (c as u32) + 32;
        assert(0x61 <= u <= 0x7a);
        char_from_ascii(u as u8)
    } else {
        c
    }
}

/// The character with the ASCII code `b`.
pub fn char_from_ascii(b: u8) -> (c: char)
    requires
        b < 128,
    ensures
        c == (b as u32) as char,
        c as u32 == b as u32,
{
    b as char
}

/// Whether `a` and `b` are equal up to ASCII case.
pub fn eq_ignore_ascii_case(a: &str, b: &str) -> (r: bool)
    ensures
        r == eq_ignore_ascii_case_spec(a@, b@),
{
    let x = chars_of(a);
    let y = chars_of(b);
    if x.len() != y.len() {
        return false;
    }
    let mut i: usize = 0;
    while i < x.len()
        invariant
            x@ == a@,
            y@ == b@,
            x@.len() == y@.len(),
            i <= x@.len(),
            forall|j: int| 0 <= j < i ==> ascii_lower(#[trigger] x@[j]) == ascii_lower(y@[j]),
        decreases x.len() - i,
    {
        if char_ascii_lower(x[i]) != char_ascii_lower(y[i]) {
            return false;
        }
        i = i + 1;
    }
    true
}


/// The ASCII digit for `d` (`0 <= d < 10`).
pub open spec fn digit_char(d: int) -> char {
    ((d + 48) as u32) as char
}

/// The decimal representation of `n`, without sign or leading zeros.
pub open spec fn decimal(n: nat) -> Seq<char>
    decreases n,
{
    if n < 10 {
        seq![digit_char(n as int)]
    } else {
        decimal(n / 10).push(digit_char((n % 10) as int))
    }
}

/// The decimal representation of a signed number, as `i64`'s `Display` writes it.
pub open spec fn signed_decimal(n: int) -> Seq<char> {
    if n < 0 {
        seq!['-'] + decimal((-n) as nat)
    } else {
        decimal(n as nat)
    }
}

/// Appends `decimal(n)` to `s`.
pub fn push_decimal(s: &mut String, n: u64)
    ensures
        final(s)@ == old(s)@ + decimal(n as nat),
    decreases n,
{
    if n >= 10 {
        push_decimal(s, n / 10);
    }
    let d = (n % 10) as u8;
    push_char(s, char_from_ascii(d + 48));
    assert(digit_char((n % 10) as int) == ((d + 48) as u32) as char);
}

/// Appends `signed_decimal(n)` to `s`.
pub fn push_signed_decimal(s: &mut String, n: i64)
    ensures
        final(s)@ == old(s)@ + signed_decimal(n as int),
{
    if n < 0 {
        push_char(s, '-');
        let m: u64 = (0i128 - n as i128) as u64;
        push_decimal(s, m);
        assert(s@ == old(s)@ + (seq!['-'] + decimal((-n) as nat)));
    } else {
        push_decimal(s, n as u64);
    }
}

/// `decimal(n)` as a new string (`u64::to_string`).
pub fn u64_to_string(n: u64) -> (s: String)
    ensures
        s@ == decimal(n as nat),
{
    let mut s = String::new();
    push_decimal(&mut s, n);
    s
}

/// Whether `c` is an ASCII digit.
pub open spec fn is_digit(c: char) -> bool {
    '0' <= c && c <= '9'
}

/// The value of an ASCII digit.
pub open spec fn digit_value(c: char) -> nat {
    ((c as u32) - 48) as nat
}

/// Whether every character of `s` is an ASCII digit.
pub open spec fn all_digits(s: Seq<char>) -> bool {
    forall|i: int| 0 <= i < s.len() ==> is_digit(#[trigger] s[i])
}

/// The number that the digit string `s` denotes.
pub open spec fn digits_value(s: Seq<char>) -> nat
    decreases s.len(),
{
    if s.len() == 0 {
        0
    } else {
        digits_value(s.drop_last()) * 10 + digit_value(s.last())
    }
}

/// `s` without one leading `+`.
pub open spec fn unsigned_body(s: Seq<char>) -> Seq<char> {
    if s.len() > 0 && s[0] == '+' {
        s.drop_first()
    } else {
        s
    }
}

/// What `str::parse` gives for an unsigned type whose largest value is `max`: an
/// optional `+`, then one or more ASCII digits denoting at most `max`.
pub open spec fn parse_unsigned(s: Seq<char>, max: nat) -> Option<nat> {
    let d = unsigned_body(s);
    if d.len() > 0 && all_digits(d) && digits_value(d) <= max {
        Some(digits_value(d))
    } else {
        None
    }
}

proof fn lemma_digits_step(p: Seq<char>, c: char)
    requires
        is_digit(c),
    ensures
        digits_value(p.push(c)) == digits_value(p) * 10 + digit_value(c),
        digits_value(p.push(c)) >= digits_value(p),
{
    assert(p.push(c).drop_last() == p);
}

/// The decimal form of `n` is a non-empty run of ASCII digits denoting `n`.
pub proof fn lemma_decimal_digits(n: nat)
    ensures
        decimal(n).len() > 0,
        all_digits(decimal(n)),
        digits_value(decimal(n)) == n,
    decreases n,
{
    if n >= 10 {
        lemma_decimal_digits(n / 10);
        let d = digit_char((n % 10) as int);
        assert(decimal(n).drop_last() == decimal(n / 10));
        assert(digit_value(d) == n % 10);
        assert(decimal(n).last() == d);
        assert(digits_value(decimal(n)) == digits_value(decimal(n / 10)) * 10 + digit_value(d));
        assert(digits_value(decimal(n)) == (n / 10) * 10 + n % 10);
        assert forall|i: int| 0 <= i < decimal(n).len() implies is_digit(#[trigger] decimal(n)[i]) by {
            if i < decimal(n / 10).len() {
                assert(decimal(n)[i] == decimal(n / 10)[i]);
            }
        }
    } else {
        assert(decimal(n).drop_last() =~= Seq::<char>::empty());
        assert(digit_value(digit_char(n as int)) == n);
        assert(digits_value(Seq::<char>::empty()) == 0);
        assert(decimal(n).last() == digit_char(n as int));
    }
}

/// A number written in decimal parses back to itself.
pub proof fn lemma_parse_decimal(n: nat, max: nat)
    requires
        n <= max,
    ensures
        parse_unsigned(decimal(n), max) == Some(n),
{
    lemma_decimal_digits(n);
    assert(is_digit(decimal(n)[0]));
}

/// `parse_unsigned(cs[from..to], max)`.
pub fn parse_unsigned_chars(cs: &[char], from: usize, to: usize, max: u64) -> (r: Option<u64>)
    requires
        from <= to <= cs@.len(),
        max >= 9,
    ensures
        match r {
            Some(v) => parse_unsigned(cs@.subrange(from as int, to as int), max as nat) == Some(v as nat),
            None => parse_unsigned(cs@.subrange(from as int, to as int), max as nat) is None,
        },
{
    let ghost s = cs@.subrange(from as int, to as int);
    let mut start = from;
    if from < to && cs[from] == '+' {
        start = from + 1;
    }
    let ghost d = cs@.subrange(start as int, to as int);
    assert(unsigned_body(s) == d);
    if start == to {
        return None;
    }
    let mut acc: u64 = 0;
    let mut over = false;
    let mut i = start;
    while i < to
        invariant
            from <= start <= i <= to <= cs@.len(),
            start < to,
            max >= 9,
            d == cs@.subrange(start as int, to as int),
            s == cs@.subrange(from as int, to as int),
            unsigned_body(s) == d,
            all_digits(cs@.subrange(start as int, i as int)),
            over ==> digits_value(cs@.subrange(start as int, i as int)) > max,
            !over ==> acc == digits_value(cs@.subrange(start as int, i as int)) && acc <= max,
        decreases to - i,
    {
        let c = cs[i];
        if !('0' <= c && c <= '9') {
            assert(d[i - start] == c);
            return None;
        }
        let dg = (c as u32 - 48) as u64;
        let ghost p = cs@.subrange(start as int, i as int);
        assert(cs@.subrange(start as int, i + 1) == p.push(c));
        proof {
            lemma_digits_step(p, c);
        }
        if !over {
            if acc > (max - dg) / 10 {
                assert(acc * 10 + dg > max) by (nonlinear_arith)
                    requires
                        acc > (max - dg) / 10,
                        dg <= 9,
                        max >= 9,
                ;
                over = true;
            } else {
                assert(acc * 10 + dg <= max) by (nonlinear_arith)
                    requires
                        acc <= (max - dg) / 10,
                        dg <= 9,
                        max >= 9,
                ;
                acc = acc * 10 + dg;
            }
        }
        i = i + 1;
    }
    assert(cs@.subrange(start as int, i as int) == d);
    if over {
        None
    } else {
        Some(acc)
    }
}

/// `str::parse::<u64>`, returning `None` where it returns an error.
pub fn parse_u64(t: &str) -> (r: Option<u64>)
    ensures
        match r {
            Some(v) => parse_unsigned(t@, u64::MAX as nat) == Some(v as nat),
            None => parse_unsigned(t@, u64::MAX as nat) is None,
        },
{
    let cs = chars_of(t);
    assert(cs@.subrange(0, cs@.len() as int) == t@);
    parse_unsigned_chars(cs.as_slice(), 0, cs.len(), u64::MAX)
}

/// What `str::parse::<i64>` gives: an optional sign (`+` or `-`), then one or
/// more ASCII digits, the number lying in the range of `i64`.
pub open spec fn parse_signed(s: Seq<char>) -> Option<int> {
    if s.len() > 0 && s[0] == '-' {
        let d = s.drop_first();
        if d.len() > 0 && all_digits(d) && digits_value(d) <= 0x8000_0000_0000_0000 {
            Some(-digits_value(d))
        } else {
            None
        }
    } else {
        match parse_unsigned(s, i64::MAX as nat) {
            Some(n) => Some(n as int),
            None => None,
        }
    }
}

/// `str::parse::<i64>`, returning `None` where it returns an error.
pub fn parse_i64(t: &str) -> (r: Option<i64>)
    ensures
        match r {
            Some(v) => parse_signed(t@) == Some(v as int),
            None => parse_signed(t@) is None,
        },
{
    let cs = chars_of(t);
    let n = cs.len();
    assert(cs@.subrange(0, n as int) == t@);
    if n > 0 && cs[0] == '-' {
        assert(t@.drop_first() == cs@.subrange(1, n as int));
        if n > 1 && cs[1] == '+' {
            assert(!is_digit(t@.drop_first()[0]));
            return None;
        }
        let ghost d = cs@.subrange(1, n as int);
        assert(unsigned_body(d) == d);
        match parse_unsigned_chars(cs.as_slice(), 1, n, 0x8000_0000_0000_0000u64) {
            Some(v) => {
                if v == 0x8000_0000_0000_0000u64 {
                    Some(i64::MIN)
                } else {
                    Some(0i64 - v as i64)
                }
            },
            None => None,
        }
    } else {
        match parse_unsigned_chars(cs.as_slice(), 0, n, i64::MAX as u64) {
            Some(v) => Some(v as i64),
            None => None,
        }
    }
}

/// `str::parse::<usize>`, returning `None` where it returns an error.
pub fn parse_usize(t: &str) -> (r: Option<usize>)
    ensures
        match r {
            Some(v) => parse_unsigned(t@, usize::MAX as nat) == Some(v as nat),
            None => parse_unsigned(t@, usize::MAX as nat) is None,
        },
{
    let cs = chars_of(t);
    assert(cs@.subrange(0, cs@.len() as int) == t@);
    match parse_unsigned_chars(cs.as_slice(), 0, cs.len(), usize::MAX as u64) {
        Some(v) => Some(v as usize),
        None => None,
    }
}


/// The position of the first `c` in `s` at or after `from`, or `s.len()`.
pub open spec fn find_char(s: Seq<char>, c: char, from: int) -> int
    decreases s.len() - from,
{
    if from < 0 || from >= s.len() {
        s.len() as int
    } else if s[from] == c {
        from
    } else {
        find_char(s, c, from + 1)
    }
}

/// The position of the first `c` in `cs[from..to]`, or `to`.
pub fn find_char_in(cs: &[char], c: char, from: usize, to: usize) -> (r: usize)
    requires
        from <= to <= cs@.len(),
    ensures
        from <= r <= to,
        r == find_char(cs@.subrange(0, to as int), c, from as int),
        r < to ==> cs@[r as int] == c,
{
    let ghost s = cs@.subrange(0, to as int);
    let mut i = from;
    while i < to && cs[i] != c
        invariant
            from <= i <= to <= cs@.len(),
            s == cs@.subrange(0, to as int),
            find_char(s, c, from as int) == find_char(s, c, i as int),
        decreases to - i,
    {
        i = i + 1;
    }
    i
}

/// `l` without one trailing carriage return.
pub open spec fn strip_cr(l: Seq<char>) -> Seq<char> {
    if l.len() > 0 && l.last() == '\r' {
        l.drop_last()
    } else {
        l
    }
}

/// The lines of `s` from position `start`, as `str::lines` splits them: at each
/// `\n`, dropping one `\r` before it; a last line without `\n` is kept as it is,
/// and nothing follows a final `\n`.
pub open spec fn lines_from(s: Seq<char>, start: int) -> Seq<Seq<char>>
    decreases s.len() - start,
{
    if start < 0 || start >= s.len() {
        Seq::empty()
    } else {
        let e = find_char(s, '\n', start);
        proof {
            lemma_find_char_bounds(s, '\n', start);
        }
        if e < s.len() {
            seq![strip_cr(s.subrange(start, e))] + lines_from(s, e + 1)
        } else {
            seq![s.subrange(start, s.len() as int)]
        }
    }
}

/// The lines of `s` (`str::lines`).
pub open spec fn lines_spec(s: Seq<char>) -> Seq<Seq<char>> {
    lines_from(s, 0)
}

/// `find_char` stays within `from..=s.len()`.
pub proof fn lemma_find_char_bounds(s: Seq<char>, c: char, from: int)
    requires
        0 <= from <= s.len(),
    ensures
        from <= find_char(s, c, from) <= s.len(),
    decreases s.len() - from,
{
    if from < s.len() && s[from] != c {
        lemma_find_char_bounds(s, c, from + 1);
    }
}

/// The lines of `t`, as `str::lines` gives them.
pub fn lines(t: &str) -> (r: Vec<String>)
    ensures
        crate::keymap::str_views(r@) == lines_spec(t@),
{
    let cs = chars_of(t);
    let n = cs.len();
    assert(cs@.subrange(0, n as int) == cs@);
    let mut r: Vec<String> = Vec::new();
    let mut start: usize = 0;
    assert(crate::keymap::str_views(r@) =~= Seq::<Seq<char>>::empty());
    while start < n
        invariant
            cs@ == t@,
            n == cs@.len(),
            start <= n,
            crate::keymap::str_views(r@) + lines_from(t@, start as int) == lines_spec(t@),
        decreases n - start,
    {
        let e = find_char_in(cs.as_slice(), '\n', start, n);
        assert(cs@.subrange(0, n as int) == t@);
        assert(e == find_char(t@, '\n', start as int));
        proof {
            lemma_find_char_bounds(t@, '\n', start as int);
        }
        let ghost prev = crate::keymap::str_views(r@);
        if e < n {
            let mut end = e;
            if end > start && cs[end - 1] == '\r' {
                end = end - 1;
            }
            assert(cs@.subrange(start as int, end as int) == strip_cr(cs@.subrange(start as int, e as int)));
            let line = string_of(cs.as_slice(), start, end);
            r.push(line);
            assert(crate::keymap::str_views(r@) =~= prev.push(line@));
            assert(lines_from(t@, start as int) == seq![line@] + lines_from(t@, e + 1));
            assert(prev + (seq![line@] + lines_from(t@, e + 1)) =~= prev.push(line@) + lines_from(t@, e + 1));
            start = e + 1;
        } else {
            let line = string_of(cs.as_slice(), start, n);
            r.push(line);
            assert(crate::keymap::str_views(r@) =~= prev.push(line@));
            assert(lines_from(t@, n as int) == Seq::<Seq<char>>::empty());
            assert(lines_from(t@, start as int) == seq![line@]);
            assert(prev + seq![line@] =~= prev.push(line@) + lines_from(t@, n as int));
            start = n;
        }
    }
    assert(lines_from(t@, start as int) == Seq::<Seq<char>>::empty());
    assert(crate::keymap::str_views(r@) + Seq::<Seq<char>>::empty() == crate::keymap::str_views(r@));
    r
}


/// `c` with an ASCII lower-case letter mapped to upper case.
pub open spec fn ascii_upper(c: char) -> char {
    if 'a' <= c && c <= 'z' {
        ((c as u32) - 32) as char
    } else {
        c
    }
}

/// The ASCII upper-casing of every character of `s`.
pub open spec fn ascii_upper_seq(s: Seq<char>) -> Seq<char> {
    Seq::new(s.len(), |i: int| ascii_upper(s[i]))
}

/// What `str::to_uppercase` returns for `s` (upper case by Unicode's mappings,
/// where one character may become several).
pub uninterp spec fn unicode_uppercase(s: Seq<char>) -> Seq<char>;

/// What `str::to_uppercase` returns: on ASCII text the ASCII upper-casing,
/// otherwise the named Unicode upper-casing.
pub open spec fn uppercase(s: Seq<char>) -> Seq<char> {
    if vstd::utf8::is_ascii_chars(s) {
        ascii_upper_seq(s)
    } else {
        unicode_uppercase(s)
    }
}

/// `str::to_uppercase`. Trusted: on ASCII text the result is the ASCII
/// upper-casing (Unicode maps `a`-`z` to `A`-`Z` and leaves the other ASCII
/// characters alone); on other text it is the named upper-casing of `s`.
#[verifier::external_body]
pub fn to_uppercase(s: &str) -> (r: String)
    ensures
        vstd::utf8::is_ascii_chars(s@) ==> r@ == ascii_upper_seq(s@),
        !vstd::utf8::is_ascii_chars(s@) ==> r@ == unicode_uppercase(s@),
{
    s.to_uppercase()
}

/// The views of a sequence of string slices.
pub open spec fn part_views(parts: Seq<&str>) -> Seq<Seq<char>> {
    Seq::new(parts.len(), |i: int| parts[i]@)
}

} // verus!
