//! RESP reply encoders.
use crate::store::byte_len;
use crate::text::{decimal, owned, push_decimal, push_signed_decimal, signed_decimal};
use vstd::prelude::*;

verus! {

/// `+msg\r\n`
pub open spec fn simple_text(msg: Seq<char>) -> Seq<char> {
    "+"@ + msg + "\r\n"@
}

/// `-ERR msg\r\n`
pub open spec fn error_text(msg: Seq<char>) -> Seq<char> {
    "-ERR "@ + msg + "\r\n"@
}

/// `:n\r\n`
pub open spec fn integer_text(n: int) -> Seq<char> {
    ":"@ + signed_decimal(n) + "\r\n"@
}

/// `$len\r\nvalue\r\n`, where `len` counts the value's UTF-8 bytes.
pub open spec fn bulk_text(value: Seq<char>) -> Seq<char> {
    "$"@ + decimal(byte_len(value) as nat) + "\r\n"@ + value + "\r\n"@
}

/// The bulk strings of `items`, one after another.
pub open spec fn bulks_text(items: Seq<Seq<char>>) -> Seq<char>
    decreases items.len(),
{
    if items.len() == 0 {
        Seq::empty()
    } else {
        bulks_text(items.drop_last()) + bulk_text(items.last())
    }
}

/// `*n\r\n` followed by the `n` items as bulk strings.
pub open spec fn array_text(items: Seq<Seq<char>>) -> Seq<char> {
    "*"@ + decimal(items.len()) + "\r\n"@ + bulks_text(items)
}

/// A simple-string reply.
pub fn simple_string(msg: &str) -> (r: String)
    ensures
        r@ == simple_text(msg@),
{
    let mut s = owned("+");
    s.append(msg);
    s.append("\r\n");
    s
}

/// An error reply.
pub fn error(msg: &str) -> (r: String)
    ensures
        r@ == error_text(msg@),
{
    let mut s = owned("-ERR ");
    s.append(msg);
    s.append("\r\n");
    s
}

/// An integer reply.
pub fn integer(n: i64) -> (r: String)
    ensures
        r@ == integer_text(n as int),
{
    let mut s = owned(":");
    push_signed_decimal(&mut s, n);
    s.append("\r\n");
    s
}

fn push_bulk(s: &mut String, value: &str)
    ensures
        final(s)@ == old(s)@ + bulk_text(value@),
{
    s.append("$");
    push_decimal(s, value.len() as u64);
    s.append("\r\n");
    s.append(value);
    s.append("\r\n");
}

/// A bulk-string reply.
pub fn bulk_string(value: &str) -> (r: String)
    ensures
        r@ == bulk_text(value@),
{
    let mut s = String::new();
    push_bulk(&mut s, value);
    s
}

/// The nil reply, `$-1\r\n`.
pub fn nil() -> (r: String)
    ensures
        r@ == "$-1\r\n"@,
{
    owned("$-1\r\n")
}

/// An array of bulk strings.
pub fn array(items: &[String]) -> (r: String)
    ensures
        r@ == array_text(crate::keymap::str_views(items@)),
{
    let ghost views = crate::keymap::str_views(items@);
    let mut s = owned("*");
    push_decimal(&mut s, items.len() as u64);
    s.append("\r\n");
    let ghost head = s@;
    let mut i: usize = 0;
    while i < items.len()
        invariant
            views == crate::keymap::str_views(items@),
            i <= items@.len(),
            s@ == head + bulks_text(views.take(i as int)),
        decreases items.len() - i,
    {
        assert(views.take(i + 1).drop_last() == views.take(i as int));
        push_bulk(&mut s, items[i].as_str());
        i = i + 1;
    }
    assert(views.take(i as int) == views);
    s
}

/// The empty array, `*0\r\n`.
pub fn empty_array() -> (r: String)
    ensures
        r@ == "*0\r\n"@,
{
    owned("*0\r\n")
}

} // verus!
