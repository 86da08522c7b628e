//! Toolchain identity: which toolchain is wanted, and under which key it is cached.

use std::ops::ControlFlow;
use vstd::prelude::*;
use vstd::slice::slice_subrange;
use vstd::string::*;
use vstd::utf8::*;

use crate::escape::{escape_into, unescape_path};
use crate::key::{key_of, lemma_first_dash_at, override_of, DASH};
use crate::lock::{Exclusive, Lock};
use crate::text::{append_bytes, bytes_from, bytes_have_at, has_at, str_has_at, string_from_utf8};

verus! {

/// A release channel.
#[derive(Debug, Clone, Copy, PartialEq, Eq, Structural)]
pub enum Channel {
    Stable,
    Beta,
    Nightly,
}

impl Channel {
    /// The channel's name, as it is written in arguments and cache keys.
    pub open spec fn name(self) -> Seq<char> {
        match self {
            Channel::Stable => "stable"@,
            Channel::Beta => "beta"@,
            Channel::Nightly => "nightly"@,
        }
    }

    /// The channel with the given name, if there is one.
    pub open spec fn named(name: Seq<char>) -> Option<Channel> {
        if name == Channel::Stable.name() {
            Some(Channel::Stable)
        } else if name == Channel::Beta.name() {
            Some(Channel::Beta)
        } else if name == Channel::Nightly.name() {
            Some(Channel::Nightly)
        } else {
            None
        }
    }

    /// The channel whose name has the given bytes, if there is one.
    pub open spec fn named_bytes(name: Seq<u8>) -> Option<Channel> {
        if name == encode_utf8(Channel::Stable.name()) {
            Some(Channel::Stable)
        } else if name == encode_utf8(Channel::Beta.name()) {
            Some(Channel::Beta)
        } else if name == encode_utf8(Channel::Nightly.name()) {
            Some(Channel::Nightly)
        } else {
            None
        }
    }

    /// The channel's name.
    pub fn as_str(self) -> (s: &'static str)
        ensures
            s@ == self.name(),
    {
        match self {
            Channel::Stable => "stable",
            Channel::Beta => "beta",
            Channel::Nightly => "nightly",
        }
    }

    /// Reads a channel's name: `Some` for exactly the three names.
    pub fn parse(s: &str) -> (channel: Option<Channel>)
        ensures
            channel == Channel::named(s@),
    {
        let n: usize = s.unicode_len();
        if Channel::Stable.as_str().unicode_len() == n && str_has_at(s, 0, Channel::Stable.as_str()) {
            assert(s@.subrange(0, n as int) =~= s@);
            Some(Channel::Stable)
        } else if Channel::Beta.as_str().unicode_len() == n && str_has_at(s, 0, Channel::Beta.as_str()) {
            assert(s@.subrange(0, n as int) =~= s@);
            Some(Channel::Beta)
        } else if Channel::Nightly.as_str().unicode_len() == n && str_has_at(
            s,
            0,
            Channel::Nightly.as_str(),
        ) {
            assert(s@.subrange(0, n as int) =~= s@);
            Some(Channel::Nightly)
        } else {
            proof {
                assert(s@.subrange(0, n as int) =~= s@);
            }
            None
        }
    }

    /// The channel's name as a `String`.
    pub fn to_string(self) -> (s: String)
        ensures
            s@ == self.name(),
    {
        self.as_str().to_owned()
    }
}

/// Each channel is the one that its name names.
pub proof fn lemma_channel_named(channel: Channel)
    ensures
        Channel::named(channel.name()) == Some(channel),
{
    reveal_strlit("stable");
    reveal_strlit("beta");
    reveal_strlit("nightly");
    assert("stable"@.len() != "beta"@.len());
    assert("stable"@.len() != "nightly"@.len());
    assert("beta"@.len() != "nightly"@.len());
}

impl std::str::FromStr for Channel {
    type Err = ();

    fn from_str(s: &str) -> (r: Result<Self, ()>)
        ensures
            r == match Channel::named(s@) {
                Some(channel) => Ok::<Channel, ()>(channel),
                None => Err::<Channel, ()>(()),
            },
    {
        match Channel::parse(s) {
            Some(channel) => Ok(channel),
            None => Err(()),
        }
    }
}

/// Which toolchain is wanted.
#[derive(Debug, PartialEq, Eq)]
pub enum ToolchainOverride {
    /// The toolchain that a pin file asks for; the bytes are the file's path.
    File(Vec<u8>),
    /// A channel, and the version of it if one was given.
    Version { channel: Channel, version: Option<String> },
    /// Nothing was asked for.
    Default,
}

/// A [`ToolchainOverride`] as a mathematical value.
pub enum OverrideView {
    /// The path of a pin file.
    File(Seq<u8>),
    /// A channel, and the version of it if one was given.
    Version { channel: Channel, version: Option<Seq<char>> },
    /// Nothing was asked for.
    Default,
}

impl View for ToolchainOverride {
    type V = OverrideView;

    open spec fn view(&self) -> OverrideView {
        match *self {
            ToolchainOverride::File(path) => OverrideView::File(path@),
            ToolchainOverride::Version { channel, version } => OverrideView::Version {
                channel,
                version: match version {
                    Some(v) => Some(v@),
                    None => None,
                },
            },
            ToolchainOverride::Default => OverrideView::Default,
        }
    }
}

/// Whether an artifact that is cached for `t` can be trusted.
///
/// `pin` is what the pin file holds now, `snapshot` what the cache entry
/// recorded of it, if it recorded anything. An entry for a pin file is
/// trusted while the two are the same. A channel with a version always means
/// the same toolchain, so its entry is trusted as it is. A channel without a
/// version and the default mean the latest toolchain, which changes while the
/// key stays: their entries are never trusted.
pub open spec fn trustworthy(t: OverrideView, pin: Seq<u8>, snapshot: Option<Seq<u8>>) -> bool {
    match t {
        OverrideView::File(_) => snapshot == Some(pin),
        OverrideView::Version { version: Some(_), .. } => true,
        OverrideView::Version { version: None, .. } => false,
        OverrideView::Default => false,
    }
}

/// Whether an entry for `t` is still trusted after it was rebuilt: whether
/// looking at the cache again can ever find it valid.
pub open spec fn rechecks(t: OverrideView) -> bool {
    match t {
        OverrideView::File(_) => true,
        OverrideView::Version { version: Some(_), .. } => true,
        OverrideView::Version { version: None, .. } => false,
        OverrideView::Default => false,
    }
}

impl ToolchainOverride {
    /// The cache key of this override: a file name that no other override has.
    pub fn key(&self) -> (key: Vec<u8>)
        ensures
            key@ == key_of(self@),
    {
        let mut key: Vec<u8> = Vec::new();
        match self {
            ToolchainOverride::File(path) => {
                append_bytes(&mut key, "file-".as_bytes());
                escape_into(path.as_slice(), &mut key);
            },
            ToolchainOverride::Version { channel, version: Some(version) } => {
                append_bytes(&mut key, "external-".as_bytes());
                append_bytes(&mut key, channel.as_str().as_bytes());
                key.push(DASH);
                append_bytes(&mut key, version.as_str().as_bytes());
                assert(key@ =~= key_of(self@));
            },
            ToolchainOverride::Version { channel, version: None } => {
                append_bytes(&mut key, "external-".as_bytes());
                append_bytes(&mut key, channel.as_str().as_bytes());
            },
            ToolchainOverride::Default => {
                append_bytes(&mut key, "default".as_bytes());
            },
        }
        key
    }

    /// The channel whose name stands in `key` from `from` up to `to`.
    fn channel_in(key: &[u8], from: usize, to: usize) -> (channel: Option<Channel>)
        requires
            from <= to <= key@.len(),
        ensures
            channel == Channel::named_bytes(key@.subrange(from as int, to as int)),
    {
        let ghost part = key@.subrange(from as int, to as int);
        let stable = Channel::Stable.as_str().as_bytes();
        let beta = Channel::Beta.as_str().as_bytes();
        let nightly = Channel::Nightly.as_str().as_bytes();
        proof {
            assert forall|lit: Seq<u8>| lit.len() == to - from implies (has_at(
                key@,
                from as int,
                lit,
            ) <==> part == lit) by {}
        }
        if stable.len() == to - from && bytes_have_at(key, from, stable) {
            Some(Channel::Stable)
        } else if beta.len() == to - from && bytes_have_at(key, from, beta) {
            Some(Channel::Beta)
        } else if nightly.len() == to - from && bytes_have_at(key, from, nightly) {
            Some(Channel::Nightly)
        } else {
            None
        }
    }

    /// Reads a cache key back: the override that `k` is the key of, or `None`
    /// where `k` is no key.
    pub fn from_key(k: Vec<u8>) -> (found: Option<ToolchainOverride>)
        ensures
            found is Some <==> override_of(k@) is Some,
            found matches Some(t) ==> override_of(k@) == Some(t@),
    {
        Self::read_key(k.as_slice())
    }

    /// Reads the cache key that the bytes of `key` are.
    fn read_key(key: &[u8]) -> (found: Option<ToolchainOverride>)
        ensures
            found is Some <==> override_of(key@) is Some,
            found matches Some(t) ==> override_of(key@) == Some(t@),
    {
        let file_tag = "file-".as_bytes();
        let channel_tag = "external-".as_bytes();
        let default_key = "default".as_bytes();
        if bytes_have_at(key, 0, file_tag) {
            let escaped = slice_subrange(key, file_tag.len(), key.len());
            assert(escaped@ =~= key@.skip(file_tag@.len() as int));
            return match unescape_path(escaped) {
                Some(path) => Some(ToolchainOverride::File(path)),
                None => None,
            };
        }
        if bytes_have_at(key, 0, channel_tag) {
            let start: usize = channel_tag.len();
            let ghost rest = key@.skip(start as int);
            let mut dash: usize = start;
            while dash < key.len() && key[dash] != DASH
                invariant
                    start <= dash <= key@.len(),
                    forall|j: int| start <= j < dash ==> key@[j] != DASH,
                decreases key@.len() - dash,
            {
                dash += 1;
            }
            proof {
                lemma_first_dash_at(rest, dash - start);
                assert(rest.take(dash - start) =~= key@.subrange(start as int, dash as int));
                if dash < key@.len() {
                    assert(rest.skip(dash - start + 1) =~= key@.skip(dash + 1));
                }
            }
            let channel = match Self::channel_in(key, start, dash) {
                Some(channel) => channel,
                None => {
                    return None;
                },
            };
            if dash == key.len() {
                return Some(ToolchainOverride::Version { channel, version: None });
            }
            return match string_from_utf8(bytes_from(key, dash + 1)) {
                Some(version) => Some(ToolchainOverride::Version { channel, version: Some(version) }),
                None => None,
            };
        }
        if default_key.len() == key.len() && bytes_have_at(key, 0, default_key) {
            assert(key@.subrange(0, key@.len() as int) =~= key@);
            return Some(ToolchainOverride::Default);
        }
        proof {
            assert(key@.subrange(0, key@.len() as int) =~= key@);
        }
        None
    }

    /// Whether the artifact that is cached for this override can be trusted,
    /// given what the pin file holds now and what the entry recorded of it.
    ///
    /// The caller holds a lock on the entry's marker, shared or exclusive: a
    /// rebuild may be changing what is read here.
    ///
    /// This does not say that there is an artifact: that is for the caller to see.
    pub fn cache_is_valid<M>(&self, pin: &[u8], snapshot: Option<&[u8]>, _lock: &Lock<M>) -> (valid:
        bool)
        ensures
            valid == trustworthy(
                self@,
                pin@,
                match snapshot {
                    Some(s) => Some(s@),
                    None => None,
                },
            ),
    {
        match self {
            ToolchainOverride::File(_) => match snapshot {
                Some(recorded) => {
                    let same = recorded.len() == pin.len() && bytes_have_at(recorded, 0, pin);
                    assert(recorded@.subrange(0, recorded@.len() as int) =~= recorded@);
                    same
                },
                None => false,
            },
            ToolchainOverride::Version { version, .. } => version.is_some(),
            ToolchainOverride::Default => false,
        }
    }

    /// Whether committing a rebuilt entry for this override has to record the
    /// pin file: it has for a pin file, and for nothing else.
    pub fn records_pin(&self) -> (records: bool)
        ensures
            records == (self@ is File),
    {
        match self {
            ToolchainOverride::File(_) => true,
            _ => false,
        }
    }

    /// Commits a rebuilt entry, once what [`Self::records_pin`] asks for is
    /// written: says whether the cache is to be looked at again (`Continue`)
    /// or the new artifact is to be used as it is (`Break`).
    ///
    /// An entry that is never trusted is not looked at again, since that
    /// would rebuild it for ever.
    pub fn commit_cache(&self, _lock: &mut Lock<Exclusive>) -> (flow: ControlFlow<()>)
        ensures
            flow == if rechecks(self@) {
                ControlFlow::<(), ()>::Continue(())
            } else {
                ControlFlow::<(), ()>::Break(())
            },
    {
        match self {
            ToolchainOverride::File(_) => ControlFlow::Continue(()),
            ToolchainOverride::Version { version: Some(_), .. } => ControlFlow::Continue(()),
            ToolchainOverride::Version { version: None, .. } => ControlFlow::Break(()),
            ToolchainOverride::Default => ControlFlow::Break(()),
        }
    }
}

/// The version that the text after a channel's name asks for.
///
/// Nothing after the name asks for no version; a dash leads in a version, which
/// may be empty; anything else is an error.
pub open spec fn version_of(rest: Seq<char>) -> Result<Option<Seq<char>>, ()> {
    if rest.len() == 0 {
        Ok(None)
    } else if rest[0] == '-' {
        Ok(Some(rest.skip(1)))
    } else {
        Err(())
    }
}

/// The override for `channel` with the outcome of reading its version.
pub open spec fn versioned(channel: Channel, version: Result<Option<Seq<char>>, ()>) -> Result<
    Option<OverrideView>,
    (),
> {
    match version {
        Ok(version) => Ok(Some(OverrideView::Version { channel, version })),
        Err(_) => Err(()),
    }
}

/// What an argument asks for.
///
/// No argument, or one that does not begin with `+`, asks for nothing. After
/// the `+` a channel's name must follow, and after that a version or nothing.
pub open spec fn override_of_arg(arg: Option<Seq<char>>) -> Result<Option<OverrideView>, ()> {
    match arg {
        None => Ok(None),
        Some(s) => if s.len() == 0 || s[0] != '+' {
            Ok(None)
        } else {
            let t = s.skip(1);
            if has_at(t, 0, Channel::Stable.name()) {
                versioned(Channel::Stable, version_of(t.skip(Channel::Stable.name().len() as int)))
            } else if has_at(t, 0, Channel::Beta.name()) {
                versioned(Channel::Beta, version_of(t.skip(Channel::Beta.name().len() as int)))
            } else if has_at(t, 0, Channel::Nightly.name()) {
                versioned(
                    Channel::Nightly,
                    version_of(t.skip(Channel::Nightly.name().len() as int)),
                )
            } else {
                Err(())
            }
        },
    }
}

/// The outcome of reading a version, with the version as a mathematical value.
pub open spec fn version_view(parsed: Result<Option<String>, ()>) -> Result<Option<Seq<char>>, ()> {
    match parsed {
        Ok(Some(v)) => Ok(Some(v@)),
        Ok(None) => Ok(None),
        Err(_) => Err(()),
    }
}

/// The outcome of reading an argument, with the override as a mathematical value.
pub open spec fn parsed_view(parsed: Result<Option<ToolchainOverride>, ()>) -> Result<
    Option<OverrideView>,
    (),
> {
    match parsed {
        Ok(Some(t)) => Ok(Some(t@)),
        Ok(None) => Ok(None),
        Err(_) => Err(()),
    }
}

/// Reads the version that follows a channel's name.
pub fn parse_toolchain_version(s: &str) -> (parsed: Result<Option<String>, ()>)
    ensures
        version_view(parsed) == version_of(s@),
{
    let n: usize = s.unicode_len();
    if n == 0 {
        return Ok(None);
    }
    if s.get_char(0) == '-' {
        let version = s.substring_char(1, n).to_owned();
        assert(version@ =~= s@.skip(1));
        Ok(Some(version))
    } else {
        Err(())
    }
}

/// Reads `t` as the name of `channel` and what follows it; `None` where `t`
/// does not begin with that name.
fn parse_channel(t: &str, channel: Channel) -> (parsed: Option<Result<Option<ToolchainOverride>, ()>>)
    ensures
        parsed is Some <==> has_at(t@, 0, channel.name()),
        parsed matches Some(p) ==> parsed_view(p) == versioned(
            channel,
            version_of(t@.skip(channel.name().len() as int)),
        ),
{
    let name = channel.as_str();
    if !str_has_at(t, 0, name) {
        return None;
    }
    let rest = t.substring_char(name.unicode_len(), t.unicode_len());
    assert(rest@ =~= t@.skip(channel.name().len() as int));
    match parse_toolchain_version(rest) {
        Ok(version) => Some(Ok(Some(ToolchainOverride::Version { channel, version }))),
        Err(_) => Some(Err(())),
    }
}

/// Reads what an argument asks for: `Ok(None)` where it asks for nothing,
/// `Err` where it begins with `+` and is no channel with an optional version.
pub fn parse_toolchain_override(s: Option<&str>) -> (parsed: Result<Option<ToolchainOverride>, ()>)
    ensures
        parsed_view(parsed) == override_of_arg(
            match s {
                Some(arg) => Some(arg@),
                None => None,
            },
        ),
{
    let s = match s {
        Some(s) => s,
        None => {
            return Ok(None);
        },
    };
    let n: usize = s.unicode_len();
    if n == 0 || s.get_char(0) != '+' {
        return Ok(None);
    }
    let t = s.substring_char(1, n);
    assert(t@ =~= s@.skip(1));
    if let Some(parsed) = parse_channel(t, Channel::Stable) {
        return parsed;
    }
    if let Some(parsed) = parse_channel(t, Channel::Beta) {
        return parsed;
    }
    if let Some(parsed) = parse_channel(t, Channel::Nightly) {
        return parsed;
    }
    Err(())
}


/// Reads a listing of the cache: for each name the override that it is the
/// key of, and `None` for a name that is no key, so that the caller can pass
/// over it and say so.
pub fn read_listing(names: &Vec<Vec<u8>>) -> (read: Vec<Option<ToolchainOverride>>)
    ensures
        read@.len() == names@.len(),
        forall|i: int|
            0 <= i < names@.len() ==> match #[trigger] read@[i] {
                Some(t) => override_of(names@[i]@) == Some(t@),
                None => override_of(names@[i]@) is None,
            },
{
    let mut read: Vec<Option<ToolchainOverride>> = Vec::new();
    let mut i: usize = 0;
    while i < names.len()
        invariant
            i <= names@.len(),
            read@.len() == i,
            forall|j: int|
                0 <= j < i ==> match #[trigger] read@[j] {
                    Some(t) => override_of(names@[j]@) == Some(t@),
                    None => override_of(names@[j]@) is None,
                },
        decreases names@.len() - i,
    {
        read.push(ToolchainOverride::read_key(names[i].as_slice()));
        i += 1;
    }
    read
}

} // verus!
