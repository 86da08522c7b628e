//! Cache keys: the file name under which each override is cached.
//!
//! A key is written so that it can be read back: the installed toolchains are
//! found by listing the cache and reading each name.

use vstd::prelude::*;
use vstd::utf8::*;

use crate::escape::{escape, lemma_escape_injective, lemma_unescape_escape, unescape};
use crate::text::has_at;
use crate::toolchain::{Channel, OverrideView};

verus! {

/// The byte that parts a channel from a version, `-`.
pub const DASH: u8 = 0x2d;

/// The text that every key of a pin file begins with.
pub open spec fn file_tag() -> Seq<u8> {
    encode_utf8("file-"@)
}

/// The text that every key of a channel begins with.
pub open spec fn channel_tag() -> Seq<u8> {
    encode_utf8("external-"@)
}

/// The key that stands for "nothing was asked for".
pub open spec fn default_key() -> Seq<u8> {
    encode_utf8("default"@)
}

/// Where the first dash of `text` stands; its length where it has none.
pub open spec fn first_dash(text: Seq<u8>) -> int
    decreases text.len(),
{
    if text.len() == 0 || text[0] == DASH {
        0
    } else {
        1 + first_dash(text.skip(1))
    }
}

/// The cache key of an override.
pub open spec fn key_of(t: OverrideView) -> Seq<u8> {
    match t {
        OverrideView::File(path) => file_tag() + escape(path),
        OverrideView::Version { channel, version: Some(v) } => channel_tag() + encode_utf8(
            channel.name(),
        ) + seq![DASH] + encode_utf8(v),
        OverrideView::Version { channel, version: None } => channel_tag() + encode_utf8(
            channel.name(),
        ),
        OverrideView::Default => default_key(),
    }
}

/// The override that the rest of a channel key, after its tag, stands for.
///
/// The channel's name runs up to the first dash; what follows that dash is the
/// version, which has to be well-formed UTF-8.
pub open spec fn channel_key_rest(rest: Seq<u8>) -> Option<OverrideView> {
    let dash = first_dash(rest);
    match Channel::named_bytes(rest.take(dash)) {
        Some(channel) => if dash == rest.len() {
            Some(OverrideView::Version { channel, version: None })
        } else if valid_utf8(rest.skip(dash + 1)) {
            Some(OverrideView::Version { channel, version: Some(decode_utf8(rest.skip(dash + 1))) })
        } else {
            None
        },
        None => None,
    }
}

/// The override that a key stands for, if it stands for one.
pub open spec fn override_of(key: Seq<u8>) -> Option<OverrideView> {
    if has_at(key, 0, file_tag()) {
        match unescape(key.skip(file_tag().len() as int)) {
            Some(path) => Some(OverrideView::File(path)),
            None => None,
        }
    } else if has_at(key, 0, channel_tag()) {
        channel_key_rest(key.skip(channel_tag().len() as int))
    } else if key == default_key() {
        Some(OverrideView::Default)
    } else {
        None
    }
}

/// What `first_dash` finds: no dash stands before it, and one stands at it
/// unless it is the end.
pub proof fn lemma_first_dash(text: Seq<u8>)
    ensures
        0 <= first_dash(text) <= text.len(),
        forall|j: int| 0 <= j < first_dash(text) ==> text[j] != DASH,
        first_dash(text) < text.len() ==> text[first_dash(text)] == DASH,
    decreases text.len(),
{
    if text.len() == 0 || text[0] == DASH {
    } else {
        let tail = text.skip(1);
        lemma_first_dash(tail);
        assert forall|j: int| 0 <= j < first_dash(text) implies text[j] != DASH by {
            if j > 0 {
                assert(tail[j - 1] == text[j]);
            }
        }
        if first_dash(tail) < tail.len() {
            assert(tail[first_dash(tail)] == text[first_dash(tail) + 1]);
        }
    }
}

/// The first dash is where a search from the front first meets one.
pub proof fn lemma_first_dash_at(text: Seq<u8>, at: int)
    requires
        0 <= at <= text.len(),
        forall|j: int| 0 <= j < at ==> text[j] != DASH,
        at < text.len() ==> text[at] == DASH,
    ensures
        first_dash(text) == at,
{
    lemma_first_dash(text);
}

/// The bytes of the tags and names that keys are made of.
pub proof fn lemma_literal_bytes()
    ensures
        file_tag() == seq![0x66u8, 0x69, 0x6c, 0x65, 0x2d],
        channel_tag() == seq![0x65u8, 0x78, 0x74, 0x65, 0x72, 0x6e, 0x61, 0x6c, 0x2d],
        default_key() == seq![0x64u8, 0x65, 0x66, 0x61, 0x75, 0x6c, 0x74],
        encode_utf8(Channel::Stable.name()) == seq![0x73u8, 0x74, 0x61, 0x62, 0x6c, 0x65],
        encode_utf8(Channel::Beta.name()) == seq![0x62u8, 0x65, 0x74, 0x61],
        encode_utf8(Channel::Nightly.name()) == seq![0x6eu8, 0x69, 0x67, 0x68, 0x74, 0x6c, 0x79],
{
    reveal_strlit("file-");
    reveal_strlit("external-");
    reveal_strlit("default");
    reveal_strlit("stable");
    reveal_strlit("beta");
    reveal_strlit("nightly");
    is_ascii_chars_encode_utf8("file-"@);
    is_ascii_chars_encode_utf8("external-"@);
    is_ascii_chars_encode_utf8("default"@);
    is_ascii_chars_encode_utf8("stable"@);
    is_ascii_chars_encode_utf8("beta"@);
    is_ascii_chars_encode_utf8("nightly"@);
    assert(file_tag() =~= seq![0x66u8, 0x69, 0x6c, 0x65, 0x2d]);
    assert(channel_tag() =~= seq![0x65u8, 0x78, 0x74, 0x65, 0x72, 0x6e, 0x61, 0x6c, 0x2d]);
    assert(default_key() =~= seq![0x64u8, 0x65, 0x66, 0x61, 0x75, 0x6c, 0x74]);
    assert(encode_utf8(Channel::Stable.name()) =~= seq![0x73u8, 0x74, 0x61, 0x62, 0x6c, 0x65]);
    assert(encode_utf8(Channel::Beta.name()) =~= seq![0x62u8, 0x65, 0x74, 0x61]);
    assert(encode_utf8(Channel::Nightly.name()) =~= seq![
        0x6eu8,
        0x69,
        0x67,
        0x68,
        0x74,
        0x6c,
        0x79,
    ]);
}

/// A channel's name as bytes: it holds no dash, begins with a letter of its
/// own, and is read back as that channel.
pub proof fn lemma_channel_name(channel: Channel)
    ensures
        encode_utf8(channel.name()).len() >= 4,
        forall|j: int|
            0 <= j < encode_utf8(channel.name()).len() ==> encode_utf8(channel.name())[j] != DASH,
        Channel::named_bytes(encode_utf8(channel.name())) == Some(channel),
        encode_utf8(channel.name())[0] == match channel {
            Channel::Stable => 0x73u8,
            Channel::Beta => 0x62u8,
            Channel::Nightly => 0x6eu8,
        },
{
    lemma_literal_bytes();
}

/// What follows the tag in the key of a channel override.
pub open spec fn channel_key_tail(channel: Channel, version: Option<Seq<char>>) -> Seq<u8> {
    match version {
        Some(v) => encode_utf8(channel.name()) + seq![DASH] + encode_utf8(v),
        None => encode_utf8(channel.name()),
    }
}

/// What follows the tag in a channel key is read back as the channel and
/// version that it was written for.
pub proof fn lemma_channel_key_rest(channel: Channel, version: Option<Seq<char>>)
    ensures
        channel_key_rest(channel_key_tail(channel, version)) == Some(
            OverrideView::Version { channel, version },
        ),
{
    let name = encode_utf8(channel.name());
    let rest = channel_key_tail(channel, version);
    lemma_channel_name(channel);
    match version {
        Some(v) => {
            assert(rest[name.len() as int] == DASH);
            assert forall|j: int| 0 <= j < name.len() implies rest[j] != DASH by {
                assert(rest[j] == name[j]);
            }
            lemma_first_dash_at(rest, name.len() as int);
            assert(rest.take(name.len() as int) =~= name);
            assert(rest.skip(name.len() as int + 1) =~= encode_utf8(v));
            encode_utf8_valid_utf8(v);
            encode_utf8_decode_utf8(v);
        },
        None => {
            lemma_first_dash_at(rest, name.len() as int);
            assert(rest.take(name.len() as int) =~= name);
        },
    }
}

/// Reading a key back gives the override that it was made for.
///
/// This holds of every channel override and of the default, and of a pin file
/// whose path holds no byte above ASCII. Such a byte is written as an escape
/// sequence that is not read back, so the key of a path that holds one stands
/// for no override (see [`lemma_key_of_high_path_unreadable`]).
pub proof fn lemma_key_round_trip(t: OverrideView)
    requires
        t matches OverrideView::File(path) ==> forall|i: int|
            0 <= i < path.len() ==> path[i] < 0x80,
    ensures
        override_of(key_of(t)) == Some(t),
{
    lemma_literal_bytes();
    let key = key_of(t);
    match t {
        OverrideView::File(path) => {
            assert(key.subrange(0, file_tag().len() as int) =~= file_tag());
            assert(key.skip(file_tag().len() as int) =~= escape(path));
            lemma_unescape_escape(path);
        },
        OverrideView::Version { channel, version } => {
            let tail = channel_key_tail(channel, version);
            assert(key =~= channel_tag() + tail);
            assert(key[0] == channel_tag()[0]);
            assert(key.subrange(0, file_tag().len() as int)[0] == key[0]);
            assert(key.subrange(0, channel_tag().len() as int) =~= channel_tag());
            assert(key.skip(channel_tag().len() as int) =~= tail);
            lemma_channel_key_rest(channel, version);
        },
        OverrideView::Default => {
            assert(key.subrange(0, file_tag().len() as int)[0] == key[0]);
            assert(channel_tag().len() > key.len());
        },
    }
}

/// The key of a pin file whose path holds a byte above ASCII stands for no
/// override.
pub proof fn lemma_key_of_high_path_unreadable(path: Seq<u8>)
    requires
        exists|i: int| 0 <= i < path.len() && path[i] >= 0x80,
    ensures
        override_of(key_of(OverrideView::File(path))) is None,
{
    let key = key_of(OverrideView::File(path));
    assert(key.subrange(0, file_tag().len() as int) =~= file_tag());
    assert(key.skip(file_tag().len() as int) =~= escape(path));
    crate::escape::lemma_unescape_rejects_high_bytes(path);
}

/// The key of a pin file holds no separator, whatever the path holds: it is
/// the name of one directory.
pub proof fn lemma_file_key_has_no_separator(path: Seq<u8>)
    ensures
        forall|i: int|
            0 <= i < key_of(OverrideView::File(path)).len() ==> key_of(OverrideView::File(path))[i]
                != crate::escape::SEP,
{
    lemma_literal_bytes();
    crate::escape::lemma_escape_has_no_separator(path);
    let key = key_of(OverrideView::File(path));
    assert forall|i: int| 0 <= i < key.len() implies key[i] != crate::escape::SEP by {
        if i < file_tag().len() {
            assert(key[i] == file_tag()[i]);
        } else {
            assert(key[i] == escape(path)[i - file_tag().len()]);
        }
    }
}

/// The tag that the key of `t` begins with.
pub open spec fn tag_of(t: OverrideView) -> Seq<u8> {
    match t {
        OverrideView::File(_) => file_tag(),
        OverrideView::Version { .. } => channel_tag(),
        OverrideView::Default => default_key(),
    }
}

/// What follows the tag in the key of `t`.
pub open spec fn payload_of(t: OverrideView) -> Seq<u8> {
    match t {
        OverrideView::File(path) => escape(path),
        OverrideView::Version { channel, version } => channel_key_tail(channel, version),
        OverrideView::Default => Seq::empty(),
    }
}

/// A key is its tag and then its payload, and the first byte of the tag tells
/// the three kinds of override apart.
pub proof fn lemma_key_parts(t: OverrideView)
    ensures
        key_of(t) == tag_of(t) + payload_of(t),
        key_of(t).len() > 0,
        key_of(t)[0] == match t {
            OverrideView::File(_) => 0x66u8,
            OverrideView::Version { .. } => 0x65u8,
            OverrideView::Default => 0x64u8,
        },
        key_of(t).skip(tag_of(t).len() as int) == payload_of(t),
{
    lemma_literal_bytes();
    assert(key_of(t) =~= tag_of(t) + payload_of(t));
    assert(key_of(t).skip(tag_of(t).len() as int) =~= payload_of(t));
}

/// No two overrides have the same key.
pub proof fn lemma_key_unique(a: OverrideView, b: OverrideView)
    requires
        key_of(a) == key_of(b),
    ensures
        a == b,
{
    lemma_key_parts(a);
    lemma_key_parts(b);
    assert(tag_of(a) == tag_of(b));
    assert(payload_of(a) == payload_of(b));
    match (a, b) {
        (OverrideView::File(p), OverrideView::File(q)) => {
            lemma_escape_injective(p, q);
        },
        (
            OverrideView::Version { channel: ca, version: va },
            OverrideView::Version { channel: cb, version: vb },
        ) => {
            lemma_channel_key_rest(ca, va);
            lemma_channel_key_rest(cb, vb);
        },
        _ => {},
    }
}

} // verus!
