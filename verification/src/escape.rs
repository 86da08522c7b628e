//! The byte escaping that turns a path into one file name, and back.
//!
//! A path may hold any byte, a file name may not hold the separator. Escaping
//! writes every byte that cannot stand for itself as the escape byte followed
//! by two lowercase hexadecimal digits.

use vstd::prelude::*;

verus! {

/// The byte that introduces an escaped byte.
pub const ESC: u8 = 0x10;

/// The path separator, `/`.
pub const SEP: u8 = 0x2f;

/// Whether `b` stands for itself in an escaped path.
pub open spec fn is_plain(b: u8) -> bool {
    b < 0x80 && b != ESC && b != SEP
}

/// The lowercase hexadecimal digit for `n`, as an ASCII byte.
pub open spec fn hex_digit(n: u8) -> u8
    recommends
        n < 16,
{
    if n < 10 {
        (0x30 + n) as u8
    } else {
        (0x61 + (n - 10)) as u8
    }
}

/// The value of the hexadecimal digit `d`, in either letter case.
pub open spec fn hex_value(d: u8) -> Option<u8> {
    if 0x30 <= d <= 0x39 {
        Some((d - 0x30) as u8)
    } else if 0x61 <= d <= 0x66 {
        Some((d - 0x61 + 10) as u8)
    } else if 0x41 <= d <= 0x46 {
        Some((d - 0x41 + 10) as u8)
    } else {
        None
    }
}

/// What one path byte becomes.
pub open spec fn escape_byte(b: u8) -> Seq<u8> {
    if is_plain(b) {
        seq![b]
    } else {
        seq![ESC, hex_digit(b / 16), hex_digit(b % 16)]
    }
}

/// The escaped form of a whole path: the escaped forms of its bytes, in order.
pub open spec fn escape(path: Seq<u8>) -> Seq<u8>
    decreases path.len(),
{
    if path.len() == 0 {
        Seq::empty()
    } else {
        escape_byte(path[0]) + escape(path.skip(1))
    }
}

/// The byte that an escape sequence with digits `hi` and `lo` stands for.
///
/// Only the escape byte itself and the separator are ever read back. A
/// separator ends the component that was being read, so it is written to the
/// path like any other byte of it.
pub open spec fn escaped_value(hi: u8, lo: u8) -> Option<u8> {
    match (hex_value(hi), hex_value(lo)) {
        (Some(h), Some(l)) => {
            let x = 16 * h + l;
            if x == ESC || x == SEP {
                Some(x as u8)
            } else {
                None
            }
        },
        _ => None,
    }
}

/// The path that `text` is the escaped form of, if it is well formed.
///
/// A byte other than the escape byte stands for itself. The escape byte must
/// be followed by two hexadecimal digits that give the escape byte or the
/// separator; anything else makes the whole text malformed.
pub open spec fn unescape(text: Seq<u8>) -> Option<Seq<u8>>
    decreases text.len(),
{
    if text.len() == 0 {
        Some(Seq::empty())
    } else if text[0] != ESC {
        match unescape(text.skip(1)) {
            Some(rest) => Some(seq![text[0]] + rest),
            None => None,
        }
    } else if text.len() < 3 {
        None
    } else {
        match (escaped_value(text[1], text[2]), unescape(text.skip(3))) {
            (Some(b), Some(rest)) => Some(seq![b] + rest),
            _ => None,
        }
    }
}

/// Escaping distributes over appending one byte.
pub proof fn lemma_escape_push(path: Seq<u8>, b: u8)
    ensures
        escape(path.push(b)) == escape(path) + escape_byte(b),
    decreases path.len(),
{
    if path.len() == 0 {
        let one = path.push(b);
        assert(one.skip(1) =~= Seq::<u8>::empty());
        assert(one[0] == b);
        assert(escape(one.skip(1)) =~= Seq::<u8>::empty());
        assert(escape(one) =~= escape_byte(b));
        assert(escape(path) + escape_byte(b) =~= escape_byte(b));
    } else {
        assert(path.push(b).skip(1) =~= path.skip(1).push(b));
        lemma_escape_push(path.skip(1), b);
        assert(escape(path.push(b)) =~= escape(path) + escape_byte(b));
    }
}

/// Reading back a plain byte that stands before `tail`.
pub proof fn lemma_unescape_plain(b: u8, tail: Seq<u8>)
    requires
        b != ESC,
    ensures
        unescape(seq![b] + tail) == match unescape(tail) {
            Some(rest) => Some(seq![b] + rest),
            None => None,
        },
{
    let text = seq![b] + tail;
    assert(text.skip(1) =~= tail);
}

/// Reading back an escape sequence that stands before `tail`.
pub proof fn lemma_unescape_escaped(hi: u8, lo: u8, tail: Seq<u8>)
    ensures
        unescape(seq![ESC, hi, lo] + tail) == match (escaped_value(hi, lo), unescape(tail)) {
            (Some(b), Some(rest)) => Some(seq![b] + rest),
            _ => None,
        },
{
    let text = seq![ESC, hi, lo] + tail;
    assert(text.skip(3) =~= tail);
}

/// The two digits written for a byte give that byte back.
pub proof fn lemma_hex_digits_value(b: u8)
    ensures
        hex_value(hex_digit(b / 16)) == Some((b / 16) as u8),
        hex_value(hex_digit(b % 16)) == Some((b % 16) as u8),
        16 * (b / 16) + b % 16 == b,
{
}

/// Escaping loses nothing of a path without bytes above ASCII: reading the
/// escaped form back gives the path.
pub proof fn lemma_unescape_escape(path: Seq<u8>)
    requires
        forall|i: int| 0 <= i < path.len() ==> path[i] < 0x80,
    ensures
        unescape(escape(path)) == Some(path),
    decreases path.len(),
{
    if path.len() == 0 {
    } else {
        let b = path[0];
        let tail = path.skip(1);
        assert forall|i: int| 0 <= i < tail.len() implies tail[i] < 0x80 by {
            assert(tail[i] == path[i + 1]);
        }
        lemma_unescape_escape(tail);
        assert(path =~= seq![b] + tail);
        if is_plain(b) {
            lemma_unescape_plain(b, escape(tail));
        } else {
            lemma_hex_digits_value(b);
            lemma_unescape_escaped(hex_digit(b / 16), hex_digit(b % 16), escape(tail));
        }
    }
}

/// A byte above ASCII is written as an escape sequence that is not read back:
/// the escaped form of a path that holds one is malformed.
pub proof fn lemma_unescape_rejects_high_bytes(path: Seq<u8>)
    requires
        exists|i: int| 0 <= i < path.len() && path[i] >= 0x80,
    ensures
        unescape(escape(path)) is None,
    decreases path.len(),
{
    let b = path[0];
    let tail = path.skip(1);
    if is_plain(b) {
        let i = choose|i: int| 0 <= i < path.len() && path[i] >= 0x80;
        assert(tail[i - 1] == path[i]);
        lemma_unescape_rejects_high_bytes(tail);
        lemma_unescape_plain(b, escape(tail));
    } else {
        lemma_hex_digits_value(b);
        lemma_unescape_escaped(hex_digit(b / 16), hex_digit(b % 16), escape(tail));
        if b < 0x80 {
            let i = choose|i: int| 0 <= i < path.len() && path[i] >= 0x80;
            assert(tail[i - 1] == path[i]);
            lemma_unescape_rejects_high_bytes(tail);
        }
    }
}

/// An escaped path holds no separator: it can be one file name.
pub proof fn lemma_escape_has_no_separator(path: Seq<u8>)
    ensures
        forall|i: int| 0 <= i < escape(path).len() ==> escape(path)[i] != SEP,
    decreases path.len(),
{
    if path.len() > 0 {
        let head = escape_byte(path[0]);
        let tail = escape(path.skip(1));
        lemma_escape_has_no_separator(path.skip(1));
        assert forall|i: int| 0 <= i < escape(path).len() implies escape(path)[i] != SEP by {
            if i < head.len() {
                assert(escape(path)[i] == head[i]);
            } else {
                assert(escape(path)[i] == tail[i - head.len()]);
            }
        }
    }
}

/// Two paths with the same escaped form are the same path.
pub proof fn lemma_escape_injective(p: Seq<u8>, q: Seq<u8>)
    requires
        escape(p) == escape(q),
    ensures
        p == q,
    decreases p.len(),
{
    if p.len() == 0 {
        if q.len() != 0 {
            assert(escape(q).len() >= escape_byte(q[0]).len());
        }
        assert(p =~= q);
    } else if q.len() == 0 {
        assert(escape(p).len() >= escape_byte(p[0]).len());
    } else {
        let a = p[0];
        let b = q[0];
        let ea = escape_byte(a);
        let eb = escape_byte(b);
        let ta = escape(p.skip(1));
        let tb = escape(q.skip(1));
        assert((ea + ta)[0] == ea[0]);
        assert((eb + tb)[0] == eb[0]);
        if is_plain(a) {
            assert(is_plain(b));
            assert(a == b);
            assert(ta =~= (ea + ta).skip(1));
            assert(tb =~= (eb + tb).skip(1));
        } else {
            assert(!is_plain(b));
            assert((ea + ta)[1] == ea[1]);
            assert((eb + tb)[1] == eb[1]);
            assert((ea + ta)[2] == ea[2]);
            assert((eb + tb)[2] == eb[2]);
            lemma_hex_digits_value(a);
            lemma_hex_digits_value(b);
            assert(a == b);
            assert(ta =~= (ea + ta).skip(3));
            assert(tb =~= (eb + tb).skip(3));
        }
        lemma_escape_injective(p.skip(1), q.skip(1));
        assert(p =~= seq![a] + p.skip(1));
        assert(q =~= seq![b] + q.skip(1));
    }
}

/// The lowercase hexadecimal digit for `n`.
fn hex_digit_of(n: u8) -> (d: u8)
    requires
        n < 16,
    ensures
        d == hex_digit(n),
{
    if n < 10 {
        0x30 + n
    } else {
        0x61 + (n - 10)
    }
}

/// The value of a hexadecimal digit, `None` for any other byte.
fn hex_value_of(d: u8) -> (v: Option<u8>)
    ensures
        v == hex_value(d),
{
    if 0x30 <= d && d <= 0x39 {
        Some(d - 0x30)
    } else if 0x61 <= d && d <= 0x66 {
        Some(d - 0x61 + 10)
    } else if 0x41 <= d && d <= 0x46 {
        Some(d - 0x41 + 10)
    } else {
        None
    }
}

/// Appends the escaped form of `path` to `out`.
pub fn escape_into(path: &[u8], out: &mut Vec<u8>)
    ensures
        final(out)@ == old(out)@ + escape(path@),
{
    let mut i: usize = 0;
    while i < path.len()
        invariant
            i <= path@.len(),
            out@ == old(out)@ + escape(path@.take(i as int)),
        decreases path@.len() - i,
    {
        let b: u8 = path[i];
        proof {
            lemma_escape_push(path@.take(i as int), b);
            assert(path@.take(i as int).push(b) =~= path@.take(i + 1));
        }
        if b < 0x80 && b != ESC && b != SEP {
            out.push(b);
            assert(out@ =~= old(out)@ + escape(path@.take(i + 1)));
        } else {
            out.push(ESC);
            out.push(hex_digit_of(b / 16));
            out.push(hex_digit_of(b % 16));
            assert(out@ =~= old(out)@ + escape(path@.take(i + 1)));
        }
        i += 1;
    }
    assert(path@.take(i as int) =~= path@);
}

/// Reads an escaped path back: the path, or `None` where the text is
/// malformed.
pub fn unescape_path(text: &[u8]) -> (path: Option<Vec<u8>>)
    ensures
        path is Some <==> unescape(text@) is Some,
        path matches Some(p) ==> unescape(text@) == Some(p@),
{
    let mut out: Vec<u8> = Vec::new();
    let mut i: usize = 0;
    assert(text@.skip(0) =~= text@);
    while i < text.len()
        invariant
            i <= text@.len(),
            unescape(text@) == match unescape(text@.skip(i as int)) {
                Some(rest) => Some(out@ + rest),
                None => None,
            },
        decreases text@.len() - i,
    {
        let ghost here = text@.skip(i as int);
        let b: u8 = text[i];
        if b != ESC {
            proof {
                assert(here.skip(1) =~= text@.skip(i + 1));
                match unescape(text@.skip(i + 1)) {
                    Some(rest) => {
                        assert(out@.push(b) + rest =~= out@ + (seq![b] + rest));
                    },
                    None => {},
                }
            }
            out.push(b);
            i += 1;
        } else {
            if text.len() - i < 3 {
                return None;
            }
            let hi: Option<u8> = hex_value_of(text[i + 1]);
            let lo: Option<u8> = hex_value_of(text[i + 2]);
            proof {
                assert(here.skip(3) =~= text@.skip(i + 3));
                assert(here[1] == text@[i + 1]);
                assert(here[2] == text@[i + 2]);
            }
            match (hi, lo) {
                (Some(h), Some(l)) => {
                    let x: u8 = 16 * h + l;
                    if x == ESC || x == SEP {
                        proof {
                            match unescape(text@.skip(i + 3)) {
                                Some(rest) => {
                                    assert(out@.push(x) + rest =~= out@ + (seq![x] + rest));
                                },
                                None => {},
                            }
                        }
                        out.push(x);
                        i += 3;
                    } else {
                        return None;
                    }
                },
                _ => {
                    return None;
                },
            }
        }
    }
    proof {
        assert(text@.skip(i as int) =~= Seq::<u8>::empty());
        assert(out@ + Seq::<u8>::empty() =~= out@);
    }
    Some(out)
}

} // verus!
