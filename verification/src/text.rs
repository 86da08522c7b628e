//! Small helpers on strings and bytes.

use vstd::prelude::*;
use vstd::string::*;
use vstd::utf8::*;

verus! {

/// Whether `lit` stands in `s` at position `from`.
pub open spec fn has_at<T>(s: Seq<T>, from: int, lit: Seq<T>) -> bool {
    0 <= from && from + lit.len() <= s.len() && s.subrange(from, from + lit.len()) == lit
}

/// Whether the characters of `lit` stand in `s` from character `from` on.
pub(crate) fn str_has_at(s: &str, from: usize, lit: &str) -> (found: bool)
    ensures
        found == has_at(s@, from as int, lit@),
{
    let n: usize = s.unicode_len();
    let m: usize = lit.unicode_len();
    if from > n || m > n - from {
        return false;
    }
    let mut j: usize = 0;
    while j < m
        invariant
            n == s@.len(),
            m == lit@.len(),
            from + m <= n,
            j <= m,
            forall|k: int| 0 <= k < j ==> s@[from + k] == lit@[k],
        decreases m - j,
    {
        if s.get_char(from + j) != lit.get_char(j) {
            proof {
                let sub = s@.subrange(from as int, from + m);
                assert(sub[j as int] == s@[from + j]);
            }
            return false;
        }
        j += 1;
    }
    assert(s@.subrange(from as int, from + m) =~= lit@);
    true
}

/// Whether the bytes of `lit` stand in `s` from position `from` on.
pub(crate) fn bytes_have_at(s: &[u8], from: usize, lit: &[u8]) -> (found: bool)
    ensures
        found == has_at(s@, from as int, lit@),
{
    let n: usize = s.len();
    let m: usize = lit.len();
    if from > n || m > n - from {
        return false;
    }
    let mut j: usize = 0;
    while j < m
        invariant
            n == s@.len(),
            m == lit@.len(),
            from + m <= n,
            j <= m,
            forall|k: int| 0 <= k < j ==> s@[from + k] == lit@[k],
        decreases m - j,
    {
        if s[from + j] != lit[j] {
            proof {
                let sub = s@.subrange(from as int, from + m);
                assert(sub[j as int] == s@[from + j]);
            }
            return false;
        }
        j += 1;
    }
    assert(s@.subrange(from as int, from + m) =~= lit@);
    true
}

/// Appends `src` to `out`.
pub(crate) fn append_bytes(out: &mut Vec<u8>, src: &[u8])
    ensures
        final(out)@ == old(out)@ + src@,
{
    let mut i: usize = 0;
    while i < src.len()
        invariant
            i <= src@.len(),
            out@ == old(out)@ + src@.take(i as int),
        decreases src@.len() - i,
    {
        out.push(src[i]);
        assert(src@.take(i + 1) =~= src@.take(i as int).push(src@[i as int]));
        assert(out@ =~= old(out)@ + src@.take(i + 1));
        i += 1;
    }
    assert(src@.take(i as int) =~= src@);
}

/// The bytes of `s` from position `from` on, as a vector of their own.
pub(crate) fn bytes_from(s: &[u8], from: usize) -> (tail: Vec<u8>)
    requires
        from <= s@.len(),
    ensures
        tail@ == s@.skip(from as int),
{
    let mut tail: Vec<u8> = Vec::new();
    let mut i: usize = from;
    while i < s.len()
        invariant
            from <= i <= s@.len(),
            tail@ == s@.subrange(from as int, i as int),
        decreases s@.len() - i,
    {
        tail.push(s[i]);
        assert(tail@ =~= s@.subrange(from as int, i + 1));
        i += 1;
    }
    assert(s@.subrange(from as int, i as int) =~= s@.skip(from as int));
    tail
}

/// `String::from_utf8`, with the error dropped: the bytes are accepted exactly
/// where they are well-formed UTF-8, and the string returned is then the one
/// that they encode.
#[verifier::external_body]
pub(crate) fn string_from_utf8(bytes: Vec<u8>) -> (s: Option<String>)
    ensures
        s is Some <==> valid_utf8(bytes@),
        s matches Some(text) ==> text@ == decode_utf8(bytes@),
{
    String::from_utf8(bytes).ok()
}

} // verus!
