//! Laws of the configuration-file reader: lines it ignores change nothing, and
//! what CONFIG REWRITE writes is what it reads back (the file text of a
//! configuration gives, line by line, the same runtime settings).
use crate::config::{merged, CliArgs, conf_file_text, conf_fold, conf_line, conf_parse, is_loglevel, no_settings, ConfModel, ConfigModel, LineEffect};
use crate::text::{decimal, find_char, is_digit, is_whitespace, lemma_decimal_digits, lemma_parse_decimal, lines_from, lines_spec, strip_cr, trim, trim_end, trim_start};
use vstd::prelude::*;

verus! {

/// The lines of `ls`, each followed by `\n`.
pub open spec fn join_lines(ls: Seq<Seq<char>>) -> Seq<char>
    decreases ls.len(),
{
    if ls.len() == 0 {
        Seq::empty()
    } else {
        ls[0] + "\n"@ + join_lines(ls.drop_first())
    }
}

/// `find_char` stops at the first `c` from `from` on (or at the end).
proof fn lemma_find_char_first(s: Seq<char>, c: char, from: int, k: int)
    requires
        0 <= from <= k <= s.len(),
        k < s.len() ==> s[k] == c,
        forall|j: int| from <= j < k ==> s[j] != c,
    ensures
        find_char(s, c, from) == k,
    decreases k - from,
{
    if from < k {
        lemma_find_char_first(s, c, from + 1, k);
    }
}

/// Searching past a prefix `p` is searching in the rest.
proof fn lemma_find_char_shift(p: Seq<char>, s: Seq<char>, c: char, i: int)
    requires
        0 <= i,
    ensures
        find_char(p + s, c, p.len() + i) == p.len() + find_char(s, c, i),
    decreases s.len() - i,
{
    if i < s.len() {
        assert((p + s)[p.len() + i] == s[i]);
        if s[i] != c {
            lemma_find_char_shift(p, s, c, i + 1);
        }
    }
}

/// The lines after a prefix `p` are the lines of the rest.
proof fn lemma_lines_shift(p: Seq<char>, s: Seq<char>, start: int)
    requires
        0 <= start,
    ensures
        lines_from(p + s, p.len() + start) == lines_from(s, start),
    decreases s.len() - start,
{
    if start < s.len() {
        let t = p + s;
        let e = find_char(s, '\n', start);
        lemma_find_char_shift(p, s, '\n', start);
        crate::text::lemma_find_char_bounds(s, '\n', start);
        if e < s.len() {
            assert(t.subrange(p.len() + start, p.len() + e) =~= s.subrange(start, e));
            lemma_lines_shift(p, s, e + 1);
        } else {
            assert(t.subrange(p.len() + start, t.len() as int) =~= s.subrange(start, s.len() as int));
        }
    }
}

/// Lines without `\n`, each written with a `\n` after it, read back as
/// themselves (less one trailing `\r` each).
proof fn lemma_lines_of_join(ls: Seq<Seq<char>>)
    requires
        forall|i: int| 0 <= i < ls.len() ==> !(#[trigger] ls[i]).contains('\n'),
    ensures
        lines_spec(join_lines(ls)) == Seq::new(ls.len(), |i: int| strip_cr(ls[i])),
    decreases ls.len(),
{
    reveal_strlit("\n");
    if ls.len() == 0 {
        assert(lines_spec(join_lines(ls)) =~= Seq::new(ls.len(), |i: int| strip_cr(ls[i])));
    } else {
        let rest = ls.drop_first();
        assert forall|i: int| 0 <= i < rest.len() implies !(#[trigger] rest[i]).contains('\n') by {
            assert(rest[i] == ls[i + 1]);
        }
        lemma_lines_of_join(rest);
        let head = ls[0] + "\n"@;
        let s = join_lines(ls);
        assert(s == head + join_lines(rest));
        let n = ls[0].len() as int;
        assert(s[n] == '\n');
        assert forall|j: int| 0 <= j < n implies s[j] != '\n' by {
            assert(s[j] == ls[0][j]);
            if s[j] == '\n' {
                assert(ls[0].contains('\n'));
            }
        }
        lemma_find_char_first(s, '\n', 0, n);
        assert(s.subrange(0, n) =~= ls[0]);
        lemma_lines_shift(head, join_lines(rest), 0);
        assert(lines_spec(s) =~= Seq::new(ls.len(), |i: int| strip_cr(ls[i])));
    }
}

/// The lines read from a last line without `\n`: none if it is empty, else
/// that line.
pub open spec fn tail_lines(tail: Seq<char>) -> Seq<Seq<char>> {
    if tail.len() == 0 {
        Seq::empty()
    } else {
        seq![tail]
    }
}

/// Lines without `\n`, each written with a `\n` after it, and then a last line
/// without one, read back as those lines (less one trailing `\r` each, for the
/// lines that end in `\n`).
proof fn lemma_lines_of_text(ls: Seq<Seq<char>>, tail: Seq<char>)
    requires
        forall|i: int| 0 <= i < ls.len() ==> !(#[trigger] ls[i]).contains('\n'),
        !tail.contains('\n'),
    ensures
        lines_spec(join_lines(ls) + tail) == Seq::new(ls.len(), |i: int| strip_cr(ls[i])) + tail_lines(tail),
    decreases ls.len(),
{
    reveal_strlit("\n");
    if ls.len() == 0 {
        assert(join_lines(ls) + tail =~= tail);
        if tail.len() > 0 {
            assert forall|j: int| 0 <= j < tail.len() implies tail[j] != '\n' by {
                if tail[j] == '\n' {
                    assert(tail.contains('\n'));
                }
            }
            lemma_find_char_first(tail, '\n', 0, tail.len() as int);
            assert(tail.subrange(0, tail.len() as int) =~= tail);
        }
        assert(lines_spec(join_lines(ls) + tail) =~= Seq::new(ls.len(), |i: int| strip_cr(ls[i])) + tail_lines(tail));
    } else {
        let rest = ls.drop_first();
        assert forall|i: int| 0 <= i < rest.len() implies !(#[trigger] rest[i]).contains('\n') by {
            assert(rest[i] == ls[i + 1]);
        }
        lemma_lines_of_text(rest, tail);
        let head = ls[0] + "\n"@;
        let s = join_lines(ls) + tail;
        assert(s =~= head + (join_lines(rest) + tail));
        let n = ls[0].len() as int;
        assert(s[n] == '\n');
        assert forall|j: int| 0 <= j < n implies s[j] != '\n' by {
            assert(s[j] == ls[0][j]);
            if s[j] == '\n' {
                assert(ls[0].contains('\n'));
            }
        }
        lemma_find_char_first(s, '\n', 0, n);
        assert(s.subrange(0, n) =~= ls[0]);
        lemma_lines_shift(head, join_lines(rest) + tail, 0);
        assert(lines_spec(s) =~= Seq::new(ls.len(), |i: int| strip_cr(ls[i])) + tail_lines(tail));
    }
}

/// Whether `k` is a key that sets one of the file's settings.
pub open spec fn is_setting_key(k: Seq<char>) -> bool {
    k == "password"@ || k == "auth"@ || k == "maxconnections"@ || k == "loglevel"@ || k == "monitor_buffer"@
}

/// Whether the reader ignores `l`: once trimmed it is blank, a comment, has no
/// space, or its first word is not a setting's key (such as `host`, `port` or
/// an unknown key, which is only reported).
pub open spec fn ignorable_line(l: Seq<char>) -> bool {
    let t = trim(l);
    let sp = find_char(t, ' ', 0);
    t.len() == 0 || t[0] == '#' || sp >= t.len() || !is_setting_key(t.subrange(0, sp))
}

proof fn lemma_ignorable_effect(m: ConfModel, l: Seq<char>)
    requires
        ignorable_line(l),
    ensures
        conf_line(m, l) is Keep || conf_line(m, l) is Unknown,
{
}

/// `trim` of a text ending in whitespace is `trim` of the text without it.
proof fn lemma_trim_drop_last(l: Seq<char>)
    requires
        l.len() > 0,
        is_whitespace(l.last()),
    ensures
        trim(l) == trim(l.drop_last()),
    decreases l.len(),
{
    if is_whitespace(l[0]) {
        if l.len() == 1 {
            assert(l.drop_first().len() == 0);
            assert(l.drop_last().len() == 0);
            assert(trim_start(l) == trim_start(l.drop_first()));
        } else {
            let r = l.drop_first();
            assert(r.last() == l.last());
            lemma_trim_drop_last(r);
            assert(l.drop_last()[0] == l[0]);
            assert(l.drop_last().drop_first() =~= r.drop_last());
            assert(trim_start(l) == trim_start(r));
            assert(trim_start(l.drop_last()) == trim_start(r.drop_last()));
        }
    } else {
        assert(l.len() > 1);
        assert(l.drop_last()[0] == l[0]);
        assert(trim_start(l) == l);
        assert(trim_start(l.drop_last()) == l.drop_last());
        assert(trim_end(l) == trim_end(l.drop_last()));
    }
}

/// Reading lines with an ignorable line inserted anywhere gives the same
/// settings, or the same refusal.
proof fn lemma_fold_ignores_line(ls: Seq<Seq<char>>, i: int, l: Seq<char>)
    requires
        0 <= i <= ls.len(),
        ignorable_line(l),
    ensures
        conf_fold(ls.insert(i, l)).0 == conf_fold(ls).0,
    decreases ls.len(),
{
    let ls2 = ls.insert(i, l);
    if i == ls.len() {
        assert(ls2.drop_last() =~= ls);
        assert(ls2.last() == l);
        if let Ok(m) = conf_fold(ls).0 {
            lemma_ignorable_effect(m, l);
        }
    } else {
        lemma_fold_ignores_line(ls.drop_last(), i, l);
        assert(ls2.drop_last() =~= ls.drop_last().insert(i, l));
        assert(ls2.last() == ls.last());
    }
}

/// Configuration-file lines that the reader ignores (blank lines, comments,
/// lines without a space, and lines whose first word is not a setting's key,
/// such as `host`, `port` or unknown keys) change nothing when added anywhere:
/// the text reads as the same settings, or is refused with the same message.
/// A text is taken as its lines, each ended by `\n`, and then whatever follows
/// the last `\n`.
pub proof fn lemma_ignored_lines_change_nothing(ls: Seq<Seq<char>>, tail: Seq<char>, i: int, l: Seq<char>)
    requires
        forall|j: int| 0 <= j < ls.len() ==> !(#[trigger] ls[j]).contains('\n'),
        !tail.contains('\n'),
        !l.contains('\n'),
        0 <= i <= ls.len(),
        ignorable_line(l),
    ensures
        conf_parse(join_lines(ls.insert(i, l)) + tail).0 == conf_parse(join_lines(ls) + tail).0,
{
    let ls2 = ls.insert(i, l);
    assert forall|j: int| 0 <= j < ls2.len() implies !(#[trigger] ls2[j]).contains('\n') by {
        if j < i {
            assert(ls2[j] == ls[j]);
        } else if j > i {
            assert(ls2[j] == ls[j - 1]);
        }
    }
    lemma_lines_of_text(ls, tail);
    lemma_lines_of_text(ls2, tail);
    let a = Seq::new(ls.len(), |k: int| strip_cr(ls[k])) + tail_lines(tail);
    let b = Seq::new(ls2.len(), |k: int| strip_cr(ls2[k])) + tail_lines(tail);
    let l2 = strip_cr(l);
    assert(b =~= a.insert(i, l2));
    if l.len() > 0 && l.last() == '\r' {
        lemma_trim_drop_last(l);
    }
    assert(trim(l2) == trim(l));
    lemma_fold_ignores_line(a, i, l2);
}

/// The pieces of `x` between line breaks, in order (as many as there are line
/// breaks, plus one).
pub open spec fn split_lines(x: Seq<char>) -> Seq<Seq<char>>
    decreases x.len(),
{
    let e = find_char(x, '\n', 0);
    proof {
        crate::text::lemma_find_char_bounds(x, '\n', 0);
    }
    if e >= x.len() {
        seq![x]
    } else {
        seq![x.subrange(0, e)] + split_lines(x.subrange(e + 1, x.len() as int))
    }
}

/// `x` followed by `\n` is its pieces, each followed by `\n`; no piece holds a
/// line break, and a text without one is a single piece.
proof fn lemma_split_lines(x: Seq<char>)
    ensures
        join_lines(split_lines(x)) == x + "\n"@,
        split_lines(x).len() > 0,
        forall|i: int| 0 <= i < split_lines(x).len() ==> !(#[trigger] split_lines(x)[i]).contains('\n'),
        !x.contains('\n') ==> split_lines(x) == seq![x],
    decreases x.len(),
{
    reveal_strlit("\n");
    let e = find_char(x, '\n', 0);
    crate::text::lemma_find_char_bounds(x, '\n', 0);
    lemma_find_char_none_before(x, 0);
    if e >= x.len() {
        assert(!x.contains('\n')) by {
            if x.contains('\n') {
                let j = choose|j: int| 0 <= j < x.len() && x[j] == '\n';
                assert(x[j] != '\n');
            }
        }
        assert(seq![x].drop_first().len() == 0);
        assert(join_lines(seq![x].drop_first()) == Seq::<char>::empty());
        assert(join_lines(seq![x]) =~= x + "\n"@);
    } else {
        let head = x.subrange(0, e);
        let rest = x.subrange(e + 1, x.len() as int);
        lemma_split_lines(rest);
        let sp = split_lines(x);
        assert(sp == seq![head] + split_lines(rest));
        assert(sp[0] == head);
        assert(sp.drop_first() =~= split_lines(rest));
        assert(x.contains('\n')) by {
            assert(x[e] == '\n');
        }
        assert(!head.contains('\n')) by {
            if head.contains('\n') {
                let j = choose|j: int| 0 <= j < head.len() && head[j] == '\n';
                assert(x[j] == '\n');
            }
        }
        assert forall|i: int| 0 <= i < sp.len() implies !(#[trigger] sp[i]).contains('\n') by {
            if i > 0 {
                assert(sp[i] == split_lines(rest)[i - 1]);
            }
        }
        assert(join_lines(sp) =~= x + "\n"@);
    }
}

/// Before the position `find_char` returns, the character does not occur.
proof fn lemma_find_char_none_before(x: Seq<char>, from: int)
    requires
        0 <= from,
    ensures
        forall|j: int| from <= j < find_char(x, '\n', from) && j < x.len() ==> x[j] != '\n',
        find_char(x, '\n', from) < x.len() ==> x[find_char(x, '\n', from)] == '\n',
    decreases x.len() - from,
{
    if from < x.len() && x[from] != '\n' {
        lemma_find_char_none_before(x, from + 1);
    }
}

/// Writing two runs of lines one after the other.
proof fn lemma_join_concat(a: Seq<Seq<char>>, b: Seq<Seq<char>>)
    ensures
        join_lines(a + b) == join_lines(a) + join_lines(b),
    decreases a.len(),
{
    if a.len() == 0 {
        assert(a + b =~= b);
        assert(join_lines(a) + join_lines(b) =~= join_lines(b));
    } else {
        lemma_join_concat(a.drop_first(), b);
        assert((a + b).drop_first() =~= a.drop_first() + b);
        assert((a + b)[0] == a[0]);
        assert(join_lines(a + b) =~= join_lines(a) + join_lines(b));
    }
}

/// The lines of the configuration file that CONFIG REWRITE writes.
pub open spec fn rewrite_lines(c: ConfigModel) -> Seq<Seq<char>> {
    seq![
        "# jedis configuration"@,
        "# do not edit while server is running — use CONFIG SET + CONFIG REWRITE"@,
        Seq::empty(),
        "host "@ + c.host,
        "port "@ + decimal(c.port as nat),
        "password "@ + match c.password {
            Some(p) => p,
            None => Seq::empty(),
        },
        "auth "@ + (if c.auth_enabled {
            "on"@
        } else {
            "off"@
        }),
        "maxconnections "@ + decimal(c.max_connections as nat),
        "loglevel "@ + c.loglevel,
        "monitor_buffer "@ + decimal(c.monitor_buffer as nat),
    ]
}

/// Writing one more line adds it, and its `\n`, at the end.
proof fn lemma_join_push(xs: Seq<Seq<char>>, l: Seq<char>)
    ensures
        join_lines(xs.push(l)) == join_lines(xs) + l + "\n"@,
    decreases xs.len(),
{
    if xs.len() == 0 {
        assert(xs.push(l).drop_first().len() == 0);
        assert(join_lines(xs.push(l).drop_first()) == Seq::<char>::empty());
        assert(join_lines(xs.push(l)) =~= join_lines(xs) + l + "\n"@);
    } else {
        assert(xs.push(l).drop_first() =~= xs.drop_first().push(l));
        lemma_join_push(xs.drop_first(), l);
        assert(xs.push(l)[0] == xs[0]);
        assert(join_lines(xs.push(l)) =~= join_lines(xs) + l + "\n"@);
    }
}

#[verifier::spinoff_prover]
proof fn lemma_text_is_lines(c: ConfigModel)
    ensures
        conf_file_text(c) == join_lines(rewrite_lines(c)),
{
    let ls = rewrite_lines(c);
    let nl = "\n"@;
    let pw = match c.password {
        Some(p) => p,
        None => Seq::empty(),
    };
    let onoff = if c.auth_enabled {
        "on"@
    } else {
        "off"@
    };
    let t3 = "# jedis configuration\n# do not edit while server is running — use CONFIG SET + CONFIG REWRITE\n\nhost "@ + c.host;
    let t4 = t3 + "\nport "@ + decimal(c.port as nat);
    let t5 = t4 + "\npassword "@ + pw;
    let t6 = t5 + "\nauth "@ + onoff;
    let t7 = t6 + "\nmaxconnections "@ + decimal(c.max_connections as nat);
    let t8 = t7 + "\nloglevel "@ + c.loglevel;
    let t9 = t8 + "\nmonitor_buffer "@ + decimal(c.monitor_buffer as nat);
    assert(conf_file_text(c) == t9 + nl);
    assert(ls.take(0) =~= Seq::<Seq<char>>::empty());
    assert forall|k: int| 0 <= k < 10 implies ls.take(k + 1) == #[trigger] ls.take(k).push(ls[k]) by {
        assert(ls.take(k + 1) =~= ls.take(k).push(ls[k]));
    }
    lemma_join_push(ls.take(0), ls[0]);
    lemma_join_push(ls.take(1), ls[1]);
    lemma_join_push(ls.take(2), ls[2]);
    lemma_join_push(ls.take(3), ls[3]);
    assert(t3 + nl =~= join_lines(ls.take(4))) by {
        reveal_strlit("\n");
        reveal_strlit("# jedis configuration");
        reveal_strlit("# do not edit while server is running — use CONFIG SET + CONFIG REWRITE");
        reveal_strlit("# jedis configuration\n# do not edit while server is running — use CONFIG SET + CONFIG REWRITE\n\nhost ");
        reveal_strlit("host ");
        assert(join_lines(ls.take(0)) == Seq::<char>::empty());
        assert("# jedis configuration\n# do not edit while server is running — use CONFIG SET + CONFIG REWRITE\n\nhost "@
            =~= "# jedis configuration"@ + nl + "# do not edit while server is running — use CONFIG SET + CONFIG REWRITE"@ + nl
            + Seq::<char>::empty() + nl + "host "@);
    }
    lemma_join_push(ls.take(4), ls[4]);
    assert(t4 + nl =~= join_lines(ls.take(5))) by {
        reveal_strlit("\n");
        reveal_strlit("\nport ");
        reveal_strlit("port ");
        assert("\nport "@ =~= nl + "port "@);
    }
    lemma_join_push(ls.take(5), ls[5]);
    assert(t5 + nl =~= join_lines(ls.take(6))) by {
        reveal_strlit("\n");
        reveal_strlit("\npassword ");
        reveal_strlit("password ");
        assert("\npassword "@ =~= nl + "password "@);
    }
    lemma_join_push(ls.take(6), ls[6]);
    assert(t6 + nl =~= join_lines(ls.take(7))) by {
        reveal_strlit("\n");
        reveal_strlit("\nauth ");
        reveal_strlit("auth ");
        assert("\nauth "@ =~= nl + "auth "@);
    }
    lemma_join_push(ls.take(7), ls[7]);
    assert(t7 + nl =~= join_lines(ls.take(8))) by {
        reveal_strlit("\n");
        reveal_strlit("\nmaxconnections ");
        reveal_strlit("maxconnections ");
        assert("\nmaxconnections "@ =~= nl + "maxconnections "@);
    }
    lemma_join_push(ls.take(8), ls[8]);
    assert(t8 + nl =~= join_lines(ls.take(9))) by {
        reveal_strlit("\n");
        reveal_strlit("\nloglevel ");
        reveal_strlit("loglevel ");
        assert("\nloglevel "@ =~= nl + "loglevel "@);
    }
    lemma_join_push(ls.take(9), ls[9]);
    assert(t9 + nl =~= join_lines(ls.take(10))) by {
        reveal_strlit("\n");
        reveal_strlit("\nmonitor_buffer ");
        reveal_strlit("monitor_buffer ");
        assert("\nmonitor_buffer "@ =~= nl + "monitor_buffer "@);
    }
    assert(ls.take(10) =~= ls);
}

/// Trailing whitespace is all that `trim_end` removes: it keeps a prefix that
/// reaches past any non-whitespace character.
proof fn lemma_trim_end_prefix(s: Seq<char>, j: int)
    requires
        0 <= j < s.len(),
        !is_whitespace(s[j]),
    ensures
        j < trim_end(s).len() <= s.len(),
        trim_end(s) == s.subrange(0, trim_end(s).len() as int),
    decreases s.len(),
{
    if is_whitespace(s.last()) {
        assert(j < s.len() - 1);
        assert(s.drop_last()[j] == s[j]);
        lemma_trim_end_prefix(s.drop_last(), j);
        assert(trim_end(s) == trim_end(s.drop_last()));
        assert(s.drop_last().subrange(0, trim_end(s).len() as int) =~= s.subrange(0, trim_end(s).len() as int));
    } else {
        assert(s.subrange(0, s.len() as int) =~= s);
    }
}

/// A text without leading or trailing whitespace is its own trim.
proof fn lemma_trim_plain(s: Seq<char>)
    requires
        s.len() > 0,
        !is_whitespace(s[0]),
        !is_whitespace(s.last()),
    ensures
        trim(s) == s,
{
    assert(trim_start(s) == s);
}

/// The parts of a line `key value`, where the key has no whitespace and the
/// value has none at its ends.
proof fn lemma_key_value(key: Seq<char>, val: Seq<char>)
    requires
        key.len() > 0,
        forall|i: int| 0 <= i < key.len() ==> !is_whitespace(#[trigger] key[i]),
        val.len() > 0,
        !is_whitespace(val[0]),
        !is_whitespace(val.last()),
    ensures
        trim(key + seq![' '] + val) == key + seq![' '] + val,
        (key + seq![' '] + val).len() > 0,
        find_char(key + seq![' '] + val, ' ', 0) == key.len(),
        (key + seq![' '] + val).subrange(0, key.len() as int) == key,
        trim((key + seq![' '] + val).subrange(key.len() as int + 1, (key + seq![' '] + val).len() as int)) == val,
{
    let t = key + seq![' '] + val;
    assert(t[0] == key[0]);
    assert(t.last() == val.last());
    lemma_trim_plain(t);
    assert forall|j: int| 0 <= j < key.len() implies t[j] != ' ' by {
        assert(t[j] == key[j]);
    }
    lemma_find_char_first(t, ' ', 0, key.len() as int);
    assert(t.subrange(0, key.len() as int) =~= key);
    assert(t.subrange(key.len() as int + 1, t.len() as int) =~= val);
    lemma_trim_plain(val);
}

/// A `host` line changes nothing, whatever follows the key.
proof fn lemma_host_line(m: ConfModel, h: Seq<char>)
    ensures
        conf_line(m, strip_cr("host "@ + h)) == LineEffect::Keep,
{
    reveal_strlit("host ");
    reveal_strlit("host");
    reveal_strlit("port");
    reveal_strlit("password");
    reveal_strlit("auth");
    reveal_strlit("maxconnections");
    reveal_strlit("loglevel");
    reveal_strlit("monitor_buffer");
    let l = strip_cr("host "@ + h);
    assert(l.len() >= 4);
    assert(l.subrange(0, 4) =~= "host"@);
    assert(l[3] == 't');
    assert(trim_start(l) == l);
    lemma_trim_end_prefix(l, 3);
    let t = trim(l);
    assert(t == trim_end(l));
    assert(t.subrange(0, 4) =~= "host"@);
    if t.len() > 4 {
        assert(t[4] == l[4]);
        assert forall|j: int| 0 <= j < 4 implies t[j] != ' ' by {
            assert(t[j] == "host"@[j]);
        }
        lemma_find_char_first(t, ' ', 0, 4);
        assert("host"@[0] != "auth"@[0]);
    } else {
        lemma_find_char_first(t, ' ', 0, 4);
    }
}

proof fn lemma_trim_start_len(s: Seq<char>)
    ensures
        trim_start(s).len() <= s.len(),
    decreases s.len(),
{
    if s.len() > 0 && is_whitespace(s[0]) {
        lemma_trim_start_len(s.drop_first());
    }
}

proof fn lemma_trim_end_len(s: Seq<char>)
    ensures
        trim_end(s).len() <= s.len(),
    decreases s.len(),
{
    if s.len() > 0 && is_whitespace(s.last()) {
        lemma_trim_end_len(s.drop_last());
    }
}

/// A non-empty text that is its own trim starts and ends with non-whitespace.
proof fn lemma_trimmed_ends(p: Seq<char>)
    requires
        p.len() > 0,
        trim(p) == p,
    ensures
        !is_whitespace(p[0]),
        !is_whitespace(p.last()),
{
    lemma_trim_start_len(p.drop_first());
    lemma_trim_end_len(trim_start(p));
    if is_whitespace(p[0]) {
        assert(trim_start(p) == trim_start(p.drop_first()));
        assert(false);
    }
    assert(trim_start(p) == p);
    if is_whitespace(p.last()) {
        lemma_trim_end_len(p.drop_last());
        assert(trim_end(p) == trim_end(p.drop_last()));
        assert(false);
    }
}

/// The settings that reading back a rewritten file gives: every runtime
/// setting, with an empty password read as none.
pub open spec fn rewritten_settings(c: ConfigModel) -> ConfModel {
    ConfModel {
        password: match c.password {
            Some(p) => if p.len() == 0 {
                None
            } else {
                Some(p)
            },
            None => None,
        },
        auth_enabled: Some(c.auth_enabled),
        max_connections: Some(c.max_connections),
        loglevel: Some(c.loglevel),
        monitor_buffer: Some(c.monitor_buffer),
    }
}

/// The decimal form of a number has no whitespace at its ends.
proof fn lemma_decimal_plain(n: nat)
    ensures
        decimal(n).len() > 0,
        !is_whitespace(decimal(n)[0]),
        !is_whitespace(decimal(n).last()),
{
    lemma_decimal_digits(n);
    assert(is_digit(decimal(n)[0]));
    assert(is_digit(decimal(n)[decimal(n).len() - 1]));
}

/// The keys that the file reader knows are distinct.
proof fn lemma_key_names()
    ensures
        "password"@ != "auth"@,
        "password"@ != "maxconnections"@,
        "password"@ != "loglevel"@,
        "password"@ != "monitor_buffer"@,
        "password"@ != "host"@,
        "password"@ != "port"@,
        "auth"@ != "maxconnections"@,
        "auth"@ != "loglevel"@,
        "auth"@ != "monitor_buffer"@,
        "auth"@ != "host"@,
        "auth"@ != "port"@,
        "maxconnections"@ != "loglevel"@,
        "maxconnections"@ != "monitor_buffer"@,
        "maxconnections"@ != "host"@,
        "maxconnections"@ != "port"@,
        "loglevel"@ != "monitor_buffer"@,
        "loglevel"@ != "host"@,
        "loglevel"@ != "port"@,
        "monitor_buffer"@ != "host"@,
        "monitor_buffer"@ != "port"@,
        "host"@ != "port"@,
{
    reveal_strlit("host");
    reveal_strlit("port");
    reveal_strlit("password");
    reveal_strlit("auth");
    reveal_strlit("maxconnections");
    reveal_strlit("loglevel");
    reveal_strlit("monitor_buffer");
    assert("password"@.len() == 8 && "loglevel"@.len() == 8 && "auth"@.len() == 4);
    assert("host"@.len() == 4 && "port"@.len() == 4);
    assert("maxconnections"@.len() == 14 && "monitor_buffer"@.len() == 14);
    assert("password"@[0] != "loglevel"@[0]);
    assert("maxconnections"@[1] != "monitor_buffer"@[1]);
    assert("host"@[0] != "port"@[0] && "host"@[0] != "auth"@[0] && "port"@[0] != "auth"@[0]);
}

/// The key names are free of whitespace.
proof fn lemma_key_plain(k: Seq<char>)
    requires
        k == "port"@ || k == "password"@ || k == "auth"@ || k == "maxconnections"@ || k == "loglevel"@
            || k == "monitor_buffer"@,
    ensures
        k.len() > 0,
        forall|i: int| 0 <= i < k.len() ==> !is_whitespace(#[trigger] k[i]),
{
    reveal_strlit("port");
    reveal_strlit("password");
    reveal_strlit("auth");
    reveal_strlit("maxconnections");
    reveal_strlit("loglevel");
    reveal_strlit("monitor_buffer");
}

/// The comment lines and the blank line change nothing.
proof fn lemma_comment_lines(m: ConfModel)
    ensures
        conf_line(m, "# jedis configuration"@) == LineEffect::Keep,
        conf_line(m, "# do not edit while server is running — use CONFIG SET + CONFIG REWRITE"@) == LineEffect::Keep,
        conf_line(m, Seq::empty()) == LineEffect::Keep,
{
    reveal_strlit("# jedis configuration");
    reveal_strlit("# do not edit while server is running — use CONFIG SET + CONFIG REWRITE");
    lemma_trim_plain("# jedis configuration"@);
    lemma_trim_plain("# do not edit while server is running — use CONFIG SET + CONFIG REWRITE"@);
    assert(trim(Seq::<char>::empty()).len() == 0);
}

/// The `port` line changes nothing.
proof fn lemma_port_line(m: ConfModel, n: nat)
    ensures
        conf_line(m, "port "@ + decimal(n)) == LineEffect::Keep,
{
    reveal_strlit("port ");
    reveal_strlit("port");
    lemma_key_names();
    lemma_key_plain("port"@);
    lemma_decimal_plain(n);
    assert("port "@ =~= "port"@ + seq![' ']);
    lemma_key_value("port"@, decimal(n));
}

/// The `password` line sets a non-empty password; without one it changes
/// nothing.
proof fn lemma_password_line(m: ConfModel, pw: Seq<char>)
    requires
        trim(pw) == pw,
    ensures
        conf_line(m, "password "@ + pw) == (if pw.len() == 0 {
            LineEffect::Keep
        } else {
            LineEffect::Apply(ConfModel { password: Some(pw), ..m })
        }),
{
    reveal_strlit("password ");
    reveal_strlit("password");
    lemma_key_names();
    lemma_key_plain("password"@);
    assert("password "@ =~= "password"@ + seq![' ']);
    if pw.len() > 0 {
        lemma_trimmed_ends(pw);
        lemma_key_value("password"@, pw);
    } else {
        let l = "password "@ + pw;
        assert(l =~= "password"@ + seq![' ']);
        assert(l.last() == ' ');
        assert(l.drop_last() =~= "password"@);
        assert(trim_start(l) == l);
        assert(trim(l) == trim_end("password"@));
        lemma_trim_plain("password"@);
        assert forall|j: int| 0 <= j < 8 implies "password"@[j] != ' ' by {}
        lemma_find_char_first("password"@, ' ', 0, 8);
    }
}

/// The `auth` line sets authentication on or off.
proof fn lemma_auth_line(m: ConfModel, b: bool)
    ensures
        conf_line(m, "auth "@ + (if b {
            "on"@
        } else {
            "off"@
        })) == LineEffect::Apply(ConfModel { auth_enabled: Some(b), ..m }),
{
    reveal_strlit("auth ");
    reveal_strlit("auth");
    reveal_strlit("on");
    reveal_strlit("off");
    lemma_key_names();
    lemma_key_plain("auth"@);
    assert("auth "@ =~= "auth"@ + seq![' ']);
    if b {
        lemma_key_value("auth"@, "on"@);
    } else {
        lemma_key_value("auth"@, "off"@);
    }
}

/// The `maxconnections` line sets the connection limit.
proof fn lemma_max_line(m: ConfModel, n: usize)
    ensures
        conf_line(m, "maxconnections "@ + decimal(n as nat)) == LineEffect::Apply(
            ConfModel { max_connections: Some(n), ..m },
        ),
{
    reveal_strlit("maxconnections ");
    reveal_strlit("maxconnections");
    lemma_key_names();
    lemma_key_plain("maxconnections"@);
    lemma_decimal_plain(n as nat);
    assert("maxconnections "@ =~= "maxconnections"@ + seq![' ']);
    lemma_key_value("maxconnections"@, decimal(n as nat));
    lemma_parse_decimal(n as nat, usize::MAX as nat);
}

/// The `loglevel` line sets a valid log level.
proof fn lemma_loglevel_line(m: ConfModel, l: Seq<char>)
    requires
        is_loglevel(l),
    ensures
        conf_line(m, "loglevel "@ + l) == LineEffect::Apply(ConfModel { loglevel: Some(l), ..m }),
{
    reveal_strlit("loglevel ");
    reveal_strlit("loglevel");
    reveal_strlit("debug");
    reveal_strlit("info");
    reveal_strlit("warn");
    reveal_strlit("error");
    lemma_key_names();
    lemma_key_plain("loglevel"@);
    assert("loglevel "@ =~= "loglevel"@ + seq![' ']);
    lemma_key_value("loglevel"@, l);
}

/// The `monitor_buffer` line sets the monitor buffer size.
proof fn lemma_buffer_line(m: ConfModel, n: usize)
    ensures
        conf_line(m, "monitor_buffer "@ + decimal(n as nat)) == LineEffect::Apply(
            ConfModel { monitor_buffer: Some(n), ..m },
        ),
{
    reveal_strlit("monitor_buffer ");
    reveal_strlit("monitor_buffer");
    lemma_key_names();
    lemma_key_plain("monitor_buffer"@);
    lemma_decimal_plain(n as nat);
    assert("monitor_buffer "@ =~= "monitor_buffer"@ + seq![' ']);
    lemma_key_value("monitor_buffer"@, decimal(n as nat));
    lemma_parse_decimal(n as nat, usize::MAX as nat);
}

proof fn lemma_no_newline_concat(a: Seq<char>, b: Seq<char>)
    requires
        !a.contains('\n'),
        !b.contains('\n'),
    ensures
        !(a + b).contains('\n'),
{
    if (a + b).contains('\n') {
        let i = choose|i: int| 0 <= i < (a + b).len() && (a + b)[i] == '\n';
        if i < a.len() {
            assert(a[i] == '\n');
        } else {
            assert(b[i - a.len()] == '\n');
        }
    }
}

/// The lines that the reader finds in a rewritten file: the written lines, the
/// `host` line less a trailing `\r`.
#[verifier::spinoff_prover]
/// The written lines other than the `host` line hold no line break and end
/// in no `\r`.
proof fn lemma_fixed_lines(c: ConfigModel)
    requires
        c.password matches Some(p) ==> !p.contains('\n') && trim(p) == p,
        is_loglevel(c.loglevel),
    ensures
        forall|i: int| 0 <= i < 10 && i != 3 ==> !(#[trigger] rewrite_lines(c)[i]).contains('\n') && strip_cr(
            rewrite_lines(c)[i],
        ) == rewrite_lines(c)[i],
{
    reveal_strlit("# jedis configuration");
    reveal_strlit("# do not edit while server is running — use CONFIG SET + CONFIG REWRITE");
    reveal_strlit("host ");
    reveal_strlit("port ");
    reveal_strlit("password ");
    reveal_strlit("auth ");
    reveal_strlit("maxconnections ");
    reveal_strlit("loglevel ");
    reveal_strlit("monitor_buffer ");
    reveal_strlit("on");
    reveal_strlit("off");
    reveal_strlit("debug");
    reveal_strlit("info");
    reveal_strlit("warn");
    reveal_strlit("error");
    let ls = rewrite_lines(c);
    let pw = match c.password {
        Some(p) => p,
        None => Seq::empty(),
    };
    assert(!pw.contains('\n'));
    lemma_decimal_digits(c.port as nat);
    lemma_decimal_digits(c.max_connections as nat);
    lemma_decimal_digits(c.monitor_buffer as nat);
    assert forall|i: int| 0 <= i < 10 && i != 3 implies !(#[trigger] ls[i]).contains('\n') by {
        if i == 0 || i == 1 {
            lemma_no_newline_plain_text(ls[i]);
        } else if i == 2 {
        } else if i == 4 {
            lemma_no_newline_plain_text("port "@);
            lemma_digits_no_newline(decimal(c.port as nat));
            lemma_no_newline_concat("port "@, decimal(c.port as nat));
        } else if i == 5 {
            lemma_no_newline_plain_text("password "@);
            lemma_no_newline_concat("password "@, pw);
        } else if i == 6 {
            lemma_no_newline_plain_text("auth "@);
            lemma_no_newline_plain_text("on"@);
            lemma_no_newline_plain_text("off"@);
            lemma_no_newline_concat("auth "@, "on"@);
            lemma_no_newline_concat("auth "@, "off"@);
        } else if i == 7 {
            lemma_no_newline_plain_text("maxconnections "@);
            lemma_digits_no_newline(decimal(c.max_connections as nat));
            lemma_no_newline_concat("maxconnections "@, decimal(c.max_connections as nat));
        } else if i == 8 {
            lemma_no_newline_plain_text("loglevel "@);
            lemma_no_newline_plain_text(c.loglevel);
            lemma_no_newline_concat("loglevel "@, c.loglevel);
        } else {
            lemma_no_newline_plain_text("monitor_buffer "@);
            lemma_digits_no_newline(decimal(c.monitor_buffer as nat));
            lemma_no_newline_concat("monitor_buffer "@, decimal(c.monitor_buffer as nat));
        }
    }
    assert forall|i: int| 0 <= i < 10 && i != 3 implies strip_cr(#[trigger] ls[i]) == ls[i] by {
        if i == 5 && pw.len() > 0 {
            lemma_trimmed_ends(pw);
            assert(ls[5].last() == pw.last());
        }
        if i == 8 {
            assert(ls[8].last() == c.loglevel.last());
        }
        if i == 4 {
            assert(ls[4].last() == decimal(c.port as nat).last());
            assert(is_digit(decimal(c.port as nat)[decimal(c.port as nat).len() - 1]));
        }
        if i == 7 {
            assert(ls[7].last() == decimal(c.max_connections as nat).last());
            assert(is_digit(decimal(c.max_connections as nat)[decimal(c.max_connections as nat).len() - 1]));
        }
        if i == 9 {
            assert(ls[9].last() == decimal(c.monitor_buffer as nat).last());
            assert(is_digit(decimal(c.monitor_buffer as nat)[decimal(c.monitor_buffer as nat).len() - 1]));
        }
    }
}

proof fn lemma_rewrite_lines_read(c: ConfigModel)
    requires
        !c.host.contains('\n'),
        c.password matches Some(p) ==> !p.contains('\n') && trim(p) == p,
        is_loglevel(c.loglevel),
    ensures
        lines_spec(conf_file_text(c)).len() == 10,
        forall|i: int| 0 <= i < 10 && i != 3 ==> #[trigger] lines_spec(conf_file_text(c))[i] == rewrite_lines(c)[i],
        lines_spec(conf_file_text(c))[3] == strip_cr("host "@ + c.host),
{
    reveal_strlit("# jedis configuration");
    reveal_strlit("# do not edit while server is running — use CONFIG SET + CONFIG REWRITE");
    reveal_strlit("host ");
    reveal_strlit("port ");
    reveal_strlit("password ");
    reveal_strlit("auth ");
    reveal_strlit("maxconnections ");
    reveal_strlit("loglevel ");
    reveal_strlit("monitor_buffer ");
    reveal_strlit("on");
    reveal_strlit("off");
    reveal_strlit("debug");
    reveal_strlit("info");
    reveal_strlit("warn");
    reveal_strlit("error");
    lemma_text_is_lines(c);
    let ls = rewrite_lines(c);
    let pw = match c.password {
        Some(p) => p,
        None => Seq::empty(),
    };
    assert(!pw.contains('\n'));
    lemma_decimal_digits(c.port as nat);
    lemma_decimal_digits(c.max_connections as nat);
    lemma_decimal_digits(c.monitor_buffer as nat);
    assert forall|i: int| 0 <= i < 10 implies !(#[trigger] ls[i]).contains('\n') by {
        if i == 0 || i == 1 {
            lemma_no_newline_plain_text(ls[i]);
        } else if i == 2 {
        } else if i == 3 {
            lemma_no_newline_plain_text("host "@);
            lemma_no_newline_concat("host "@, c.host);
        } else if i == 4 {
            lemma_no_newline_plain_text("port "@);
            lemma_digits_no_newline(decimal(c.port as nat));
            lemma_no_newline_concat("port "@, decimal(c.port as nat));
        } else if i == 5 {
            lemma_no_newline_plain_text("password "@);
            lemma_no_newline_concat("password "@, pw);
        } else if i == 6 {
            lemma_no_newline_plain_text("auth "@);
            lemma_no_newline_plain_text("on"@);
            lemma_no_newline_plain_text("off"@);
            lemma_no_newline_concat("auth "@, "on"@);
            lemma_no_newline_concat("auth "@, "off"@);
        } else if i == 7 {
            lemma_no_newline_plain_text("maxconnections "@);
            lemma_digits_no_newline(decimal(c.max_connections as nat));
            lemma_no_newline_concat("maxconnections "@, decimal(c.max_connections as nat));
        } else if i == 8 {
            lemma_no_newline_plain_text("loglevel "@);
            lemma_no_newline_plain_text(c.loglevel);
            lemma_no_newline_concat("loglevel "@, c.loglevel);
        } else {
            lemma_no_newline_plain_text("monitor_buffer "@);
            lemma_digits_no_newline(decimal(c.monitor_buffer as nat));
            lemma_no_newline_concat("monitor_buffer "@, decimal(c.monitor_buffer as nat));
        }
    }
    lemma_lines_of_join(ls);
    let ls2 = lines_spec(conf_file_text(c));
    assert forall|i: int| 0 <= i < 10 && i != 3 implies #[trigger] ls2[i] == ls[i] by {
        assert(ls2[i] == strip_cr(ls[i]));
        if i == 5 && pw.len() > 0 {
            lemma_trimmed_ends(pw);
            assert(ls[5].last() == pw.last());
        }
        if i == 8 {
            assert(ls[8].last() == c.loglevel.last());
        }
        if i == 4 {
            assert(ls[4].last() == decimal(c.port as nat).last());
            assert(is_digit(decimal(c.port as nat)[decimal(c.port as nat).len() - 1]));
        }
        if i == 7 {
            assert(ls[7].last() == decimal(c.max_connections as nat).last());
            assert(is_digit(decimal(c.max_connections as nat)[decimal(c.max_connections as nat).len() - 1]));
        }
        if i == 9 {
            assert(ls[9].last() == decimal(c.monitor_buffer as nat).last());
            assert(is_digit(decimal(c.monitor_buffer as nat)[decimal(c.monitor_buffer as nat).len() - 1]));
        }
    }
}

/// CONFIG REWRITE, then reading the file back: a configuration whose host and
/// password hold no line break, whose password has no whitespace at its ends
/// and whose log level is valid is read back, with no unknown key, as its own
/// runtime settings (an empty password as none).
#[verifier::spinoff_prover]
pub proof fn lemma_rewrite_reads_back(c: ConfigModel)
    requires
        !c.host.contains('\n'),
        c.password matches Some(p) ==> !p.contains('\n') && trim(p) == p,
        is_loglevel(c.loglevel),
    ensures
        conf_parse(conf_file_text(c)) == (Ok::<ConfModel, Seq<char>>(rewritten_settings(c)), Seq::<Seq<char>>::empty()),
{
    lemma_rewrite_lines_read(c);
    let ls = rewrite_lines(c);
    let ls2 = lines_spec(conf_file_text(c));
    let pw = match c.password {
        Some(p) => p,
        None => Seq::empty(),
    };
    let m0 = no_settings();
    let m5 = if pw.len() == 0 {
        m0
    } else {
        ConfModel { password: Some(pw), ..m0 }
    };
    let m6 = ConfModel { auth_enabled: Some(c.auth_enabled), ..m5 };
    let m7 = ConfModel { max_connections: Some(c.max_connections), ..m6 };
    let m8 = ConfModel { loglevel: Some(c.loglevel), ..m7 };
    let m9 = ConfModel { monitor_buffer: Some(c.monitor_buffer), ..m8 };
    lemma_comment_lines(m0);
    lemma_host_line(m0, c.host);
    lemma_port_line(m0, c.port as nat);
    lemma_password_line(m0, pw);
    lemma_auth_line(m5, c.auth_enabled);
    lemma_max_line(m6, c.max_connections);
    lemma_loglevel_line(m7, c.loglevel);
    lemma_buffer_line(m8, c.monitor_buffer);
    assert(ls2[0] == "# jedis configuration"@ && ls2[1] == "# do not edit while server is running — use CONFIG SET + CONFIG REWRITE"@);
    assert(ls2[2] == Seq::<char>::empty() && ls2[4] == ls[4] && ls2[5] == ls[5]);
    assert(ls2[6] == ls[6] && ls2[7] == ls[7] && ls2[8] == ls[8] && ls2[9] == ls[9]);
    assert forall|k: int| 1 <= k <= 10 implies #[trigger] ls2.take(k).drop_last() == ls2.take(k - 1) && ls2.take(k).last()
        == ls2[k - 1] by {
        assert(ls2.take(k).drop_last() =~= ls2.take(k - 1));
    }
    let e = Seq::<Seq<char>>::empty();
    assert(conf_fold(ls2.take(0)) == (Ok::<ConfModel, Seq<char>>(m0), e));
    assert(conf_fold(ls2.take(1)) == (Ok::<ConfModel, Seq<char>>(m0), e));
    assert(conf_fold(ls2.take(2)) == (Ok::<ConfModel, Seq<char>>(m0), e));
    assert(conf_fold(ls2.take(3)) == (Ok::<ConfModel, Seq<char>>(m0), e));
    assert(conf_fold(ls2.take(4)) == (Ok::<ConfModel, Seq<char>>(m0), e));
    assert(conf_fold(ls2.take(5)) == (Ok::<ConfModel, Seq<char>>(m0), e));
    assert(conf_fold(ls2.take(6)) == (Ok::<ConfModel, Seq<char>>(m5), e));
    assert(conf_fold(ls2.take(7)) == (Ok::<ConfModel, Seq<char>>(m6), e));
    assert(conf_fold(ls2.take(8)) == (Ok::<ConfModel, Seq<char>>(m7), e));
    assert(conf_fold(ls2.take(9)) == (Ok::<ConfModel, Seq<char>>(m8), e));
    assert(conf_fold(ls2.take(10)) == (Ok::<ConfModel, Seq<char>>(m9), e));
    assert(ls2.take(10) =~= ls2);
}

/// A text none of whose characters is a line break holds none.
proof fn lemma_no_newline_plain_text(s: Seq<char>)
    requires
        forall|i: int| 0 <= i < s.len() ==> #[trigger] s[i] != '\n',
    ensures
        !s.contains('\n'),
{
}

proof fn lemma_digits_no_newline(s: Seq<char>)
    requires
        crate::text::all_digits(s),
    ensures
        !s.contains('\n'),
{
    assert forall|i: int| 0 <= i < s.len() implies #[trigger] s[i] != '\n' by {
        assert(is_digit(s[i]));
    }
}

/// Restarting on a rewritten file with the command line left at its defaults
/// brings back every runtime setting; host, port and file path come from the
/// command line as always.
pub proof fn lemma_restart_keeps_settings(c: ConfigModel, cli: &CliArgs)
    requires
        cli.password is None,
        cli.max_connections == 100,
        cli.loglevel@ == "info"@,
        cli.monitor_buffer == 100,
        c.password != Some(Seq::<char>::empty()),
    ensures
        merged(cli, rewritten_settings(c)) == (ConfigModel { host: cli.host@, port: cli.port, conf_path: cli.conf@, ..c }),
{
    if let Some(p) = c.password {
        if p.len() == 0 {
            assert(p =~= Seq::<char>::empty());
        }
    }
}

/// Reading the lines `ls` on from the state `r` (the settings or refusal so far,
/// and the unknown keys met).
pub open spec fn fold_on(
    r: (Result<ConfModel, Seq<char>>, Seq<Seq<char>>),
    ls: Seq<Seq<char>>,
) -> (Result<ConfModel, Seq<char>>, Seq<Seq<char>>)
    decreases ls.len(),
{
    if ls.len() == 0 {
        r
    } else {
        let (r0, w) = fold_on(r, ls.drop_last());
        match r0 {
            Err(e) => (Err(e), w),
            Ok(m) => match conf_line(m, ls.last()) {
                LineEffect::Keep => (Ok(m), w),
                LineEffect::Apply(m2) => (Ok(m2), w),
                LineEffect::Unknown(k) => (Ok(m), w.push(k)),
                LineEffect::Fail(e) => (Err(e), w),
            },
        }
    }
}

/// Reading `a` then `b` is reading `b` on from where `a` left off.
proof fn lemma_fold_concat(a: Seq<Seq<char>>, b: Seq<Seq<char>>)
    ensures
        conf_fold(a + b) == fold_on(conf_fold(a), b),
    decreases b.len(),
{
    if b.len() == 0 {
        assert(a + b =~= a);
    } else {
        lemma_fold_concat(a, b.drop_last());
        assert((a + b).drop_last() =~= a + b.drop_last());
        assert((a + b).last() == b.last());
    }
}

/// Whether a line that a host name brings into a rewritten file leaves the
/// settings read back as they should be: it is never refused, and it sets no
/// password unless the password line written later sets one again.
pub open spec fn harmless_line(l: Seq<char>, password_written: bool) -> bool {
    forall|m: ConfModel|
        #![trigger conf_line(m, l)]
        !(conf_line(m, l) is Fail) && (conf_line(m, l) matches LineEffect::Apply(m2) ==> password_written
            || m2.password == m.password)
}

proof fn lemma_fold_harmless(r: (Result<ConfModel, Seq<char>>, Seq<Seq<char>>), mid: Seq<Seq<char>>, pw: bool)
    requires
        r.0 is Ok,
        forall|i: int| 0 <= i < mid.len() ==> harmless_line(#[trigger] mid[i], pw),
    ensures
        fold_on(r, mid).0 is Ok,
        !pw ==> fold_on(r, mid).0->Ok_0.password == r.0->Ok_0.password,
    decreases mid.len(),
{
    if mid.len() > 0 {
        assert forall|i: int| 0 <= i < mid.drop_last().len() implies harmless_line(#[trigger] mid.drop_last()[i], pw) by {
            assert(mid.drop_last()[i] == mid[i]);
        }
        lemma_fold_harmless(r, mid.drop_last(), pw);
        assert(harmless_line(mid[mid.len() - 1], pw));
        let m = fold_on(r, mid.drop_last()).0->Ok_0;
        assert(!(conf_line(m, mid.last()) is Fail));
    }
}

/// A line reads the same with or without one trailing `\r`.
proof fn lemma_strip_cr_same_effect(l: Seq<char>, m: ConfModel)
    ensures
        conf_line(m, strip_cr(l)) == conf_line(m, l),
{
    if l.len() > 0 && l.last() == '\r' {
        lemma_trim_drop_last(l);
    }
}

/// The written text, with the host's pieces as lines of their own.
proof fn lemma_text_with_host_lines(c: ConfigModel)
    ensures
        conf_file_text(c) == join_lines(
            rewrite_lines(c).take(3) + seq!["host "@ + split_lines(c.host)[0]] + split_lines(c.host).drop_first()
                + rewrite_lines(c).skip(4),
        ),
{
    reveal_strlit("\n");
    lemma_text_is_lines(c);
    lemma_split_lines(c.host);
    let rl = rewrite_lines(c);
    let segs = split_lines(c.host);
    let a = rl.take(3);
    let z = rl.skip(4);
    let h1 = seq![rl[3]];
    let h2 = seq!["host "@ + segs[0]] + segs.drop_first();
    assert(rl =~= a + h1 + z);
    lemma_join_concat(a + h1, z);
    lemma_join_concat(a, h1);
    lemma_join_concat(a + h2, z);
    lemma_join_concat(a, h2);
    assert(h1.drop_first().len() == 0);
    assert(join_lines(h1.drop_first()) == Seq::<char>::empty());
    assert(join_lines(h1) =~= "host "@ + c.host + "\n"@);
    assert(h2.drop_first() =~= segs.drop_first());
    assert(h2[0] == "host "@ + segs[0]);
    assert(join_lines(h2) == h2[0] + "\n"@ + join_lines(h2.drop_first()));
    assert(join_lines(segs) == segs[0] + "\n"@ + join_lines(segs.drop_first()));
    assert(join_lines(h2) =~= "host "@ + join_lines(segs));
    assert(join_lines(h2) == join_lines(h1));
    assert(a + h2 =~= a + seq!["host "@ + segs[0]] + segs.drop_first());
}

/// CONFIG REWRITE, then reading the file back, for any host name: with a
/// password free of line breaks and of whitespace at its ends, and a valid log
/// level, the file reads back as the configuration's runtime settings (an empty
/// password as none) when each line that the host name's line breaks bring in
/// is never refused and, where no password is written, sets none. (A refused
/// line makes the read fail, and a password set where none is written stays.)
#[verifier::spinoff_prover]
#[verifier::rlimit(40)]
pub proof fn lemma_rewrite_reads_back_any_host(c: ConfigModel)
    requires
        forall|i: int|
            1 <= i < split_lines(c.host).len() ==> harmless_line(
                #[trigger] split_lines(c.host)[i],
                rewritten_settings(c).password is Some,
            ),
        c.password matches Some(p) ==> !p.contains('\n') && trim(p) == p,
        is_loglevel(c.loglevel),
    ensures
        conf_parse(conf_file_text(c)).0 == Ok::<ConfModel, Seq<char>>(rewritten_settings(c)),
{
    reveal_strlit("host ");
    lemma_split_lines(c.host);
    lemma_fixed_lines(c);
    lemma_text_with_host_lines(c);
    let rl = rewrite_lines(c);
    let segs = split_lines(c.host);
    let mid = segs.drop_first();
    let host0 = "host "@ + segs[0];
    let all = rl.take(3) + seq![host0] + mid + rl.skip(4);
    lemma_no_newline_plain_text("host "@);
    lemma_no_newline_concat("host "@, segs[0]);
    assert forall|i: int| 0 <= i < all.len() implies !(#[trigger] all[i]).contains('\n') by {
        if i < 3 {
            assert(all[i] == rl[i]);
        } else if i == 3 {
            assert(all[i] == host0);
        } else if i < 4 + mid.len() {
            assert(all[i] == mid[i - 4]);
            assert(mid[i - 4] == segs[i - 3]);
        } else {
            assert(all[i] == rl[i - mid.len()]);
        }
    }
    lemma_lines_of_join(all);
    let lines = lines_spec(conf_file_text(c));
    let p = seq![rl[0], rl[1], rl[2], strip_cr(host0)];
    let mid2 = Seq::new(mid.len(), |i: int| strip_cr(mid[i]));
    let q = rl.skip(4);
    assert(lines =~= p + mid2 + q) by {
        assert forall|i: int| 0 <= i < lines.len() implies lines[i] == (p + mid2 + q)[i] by {
            assert(lines[i] == strip_cr(all[i]));
            if 4 + mid.len() <= i {
                assert(all[i] == rl[i - mid.len()]);
                assert(q[i - 4 - mid.len()] == rl[i - mid.len()]);
            }
        }
    }
    lemma_fold_concat(p + mid2, q);
    lemma_fold_concat(p, mid2);
    // the first four lines change nothing
    let m0 = no_settings();
    let e = Seq::<Seq<char>>::empty();
    lemma_comment_lines(m0);
    assert(rl[0] == "# jedis configuration"@ && rl[1] == "# do not edit while server is running — use CONFIG SET + CONFIG REWRITE"@);
    assert(rl[2] == Seq::<char>::empty());
    lemma_host_line(m0, segs[0]);
    assert forall|k: int| 1 <= k <= 4 implies #[trigger] p.take(k).drop_last() == p.take(k - 1) && p.take(k).last() == p[k - 1] by {
        assert(p.take(k).drop_last() =~= p.take(k - 1));
    }
    assert(conf_fold(p.take(0)) == (Ok::<ConfModel, Seq<char>>(m0), e));
    assert(conf_fold(p.take(1)) == (Ok::<ConfModel, Seq<char>>(m0), e));
    assert(conf_fold(p.take(2)) == (Ok::<ConfModel, Seq<char>>(m0), e));
    assert(conf_fold(p.take(3)) == (Ok::<ConfModel, Seq<char>>(m0), e));
    assert(conf_fold(p.take(4)) == (Ok::<ConfModel, Seq<char>>(m0), e));
    assert(p.take(4) =~= p);
    // the host's further lines
    let pw_set = rewritten_settings(c).password is Some;
    assert forall|i: int| 0 <= i < mid2.len() implies harmless_line(#[trigger] mid2[i], pw_set) by {
        assert(mid[i] == segs[i + 1]);
        assert(harmless_line(segs[i + 1], pw_set));
        assert forall|m: ConfModel| #[trigger] conf_line(m, mid2[i]) == conf_line(m, segs[i + 1]) by {
            lemma_strip_cr_same_effect(segs[i + 1], m);
        }
    }
    let r1 = fold_on((Ok::<ConfModel, Seq<char>>(m0), e), mid2);
    lemma_fold_harmless((Ok::<ConfModel, Seq<char>>(m0), e), mid2, pw_set);
    let m1 = r1.0->Ok_0;
    let w1 = r1.1;
    // the written lines after the host
    let pw = match c.password {
        Some(x) => x,
        None => Seq::empty(),
    };
    let m5 = if pw.len() == 0 {
        m1
    } else {
        ConfModel { password: Some(pw), ..m1 }
    };
    let m6 = ConfModel { auth_enabled: Some(c.auth_enabled), ..m5 };
    let m7 = ConfModel { max_connections: Some(c.max_connections), ..m6 };
    let m8 = ConfModel { loglevel: Some(c.loglevel), ..m7 };
    let m9 = ConfModel { monitor_buffer: Some(c.monitor_buffer), ..m8 };
    lemma_port_line(m1, c.port as nat);
    lemma_password_line(m1, pw);
    lemma_auth_line(m5, c.auth_enabled);
    lemma_max_line(m6, c.max_connections);
    lemma_loglevel_line(m7, c.loglevel);
    lemma_buffer_line(m8, c.monitor_buffer);
    assert(q.len() == 6);
    assert(q[0] == rl[4] && q[1] == rl[5] && q[2] == rl[6] && q[3] == rl[7] && q[4] == rl[8] && q[5] == rl[9]);
    assert forall|k: int| 1 <= k <= 6 implies #[trigger] q.take(k).drop_last() == q.take(k - 1) && q.take(k).last() == q[k - 1] by {
        assert(q.take(k).drop_last() =~= q.take(k - 1));
    }
    let r = (Ok::<ConfModel, Seq<char>>(m1), w1);
    assert(fold_on(r, q.take(0)) == r);
    assert(fold_on(r, q.take(1)).0 == Ok::<ConfModel, Seq<char>>(m1));
    assert(fold_on(r, q.take(2)).0 == Ok::<ConfModel, Seq<char>>(m5));
    assert(fold_on(r, q.take(3)).0 == Ok::<ConfModel, Seq<char>>(m6));
    assert(fold_on(r, q.take(4)).0 == Ok::<ConfModel, Seq<char>>(m7));
    assert(fold_on(r, q.take(5)).0 == Ok::<ConfModel, Seq<char>>(m8));
    assert(fold_on(r, q.take(6)).0 == Ok::<ConfModel, Seq<char>>(m9));
    assert(q.take(6) =~= q);
    assert(m9 == rewritten_settings(c));
}

} // verus!
