use rustdn::toolchain::{read_listing, Channel, ToolchainOverride};

fn pinned(path: &[u8]) -> ToolchainOverride {
    ToolchainOverride::File(path.to_vec())
}

fn versioned(channel: Channel, version: Option<&str>) -> ToolchainOverride {
    ToolchainOverride::Version {
        channel,
        version: version.map(str::to_owned),
    }
}

#[test]
fn keys_of_channels_and_default() {
    assert_eq!(ToolchainOverride::Default.key(), b"default".to_vec());
    assert_eq!(
        versioned(Channel::Stable, None).key(),
        b"external-stable".to_vec()
    );
    assert_eq!(
        versioned(Channel::Stable, Some("1.78")).key(),
        b"external-stable-1.78".to_vec()
    );
    assert_eq!(
        versioned(Channel::Beta, Some("")).key(),
        b"external-beta-".to_vec()
    );
    assert_eq!(
        versioned(Channel::Nightly, Some("2024-05-01")).key(),
        b"external-nightly-2024-05-01".to_vec()
    );
    assert_eq!(
        versioned(Channel::Beta, Some("\u{e9}")).key(),
        b"external-beta-\xc3\xa9".to_vec()
    );
}

#[test]
fn keys_of_pin_files() {
    assert_eq!(pinned(b"").key(), b"file-".to_vec());
    assert_eq!(pinned(b"p.toml").key(), b"file-p.toml".to_vec());
    assert_eq!(
        pinned(b"/tmp/p.toml").key(),
        b"file-\x102ftmp\x102fp.toml".to_vec()
    );
    assert_eq!(pinned(b"\x10").key(), b"file-\x1010".to_vec());
    assert_eq!(pinned(b"\xc3\xa9").key(), b"file-\x10c3\x10a9".to_vec());
    assert_eq!(pinned(b"\x80\xff").key(), b"file-\x1080\x10ff".to_vec());
    assert_eq!(pinned(b"\x00\x0f\x11\x7f").key(), b"file-\x00\x0f\x11\x7f".to_vec());
    assert_eq!(pinned(b"a-b c").key(), b"file-a-b c".to_vec());
}

#[test]
fn a_key_holds_no_separator() {
    let key = pinned(b"/a//b/\x10/c/").key();
    assert!(!key.contains(&b'/'));
    assert_eq!(key, b"file-\x102fa\x102f\x102fb\x102f\x1010\x102fc\x102f".to_vec());
}

#[test]
fn keys_are_read_back() {
    let all = vec![
        ToolchainOverride::Default,
        versioned(Channel::Stable, None),
        versioned(Channel::Beta, None),
        versioned(Channel::Nightly, None),
        versioned(Channel::Stable, Some("1.78")),
        versioned(Channel::Stable, Some("")),
        versioned(Channel::Nightly, Some("2024-05-01")),
        versioned(Channel::Beta, Some("-")),
        versioned(Channel::Beta, Some("\u{e9}\u{4e2d}\u{1f600}")),
        versioned(Channel::Stable, Some("a/b\x10c")),
        pinned(b""),
        pinned(b"/"),
        pinned(b"/tmp/p.toml"),
        pinned(b"rust-toolchain.toml"),
        pinned(b"/a//b/"),
        pinned(b"\x10"),
        pinned(b"/\x10/\x10\x10"),
        pinned(b"\x102f"),
        pinned(b"a\x00b\x7f"),
    ];
    for t in all {
        assert_eq!(ToolchainOverride::from_key(t.key()), Some(t));
    }
}

#[test]
fn the_key_of_a_path_above_ascii_is_not_read_back() {
    assert_eq!(ToolchainOverride::from_key(pinned(b"\xc3\xa9").key()), None);
    assert_eq!(ToolchainOverride::from_key(pinned(b"/tmp/\x80").key()), None);
    assert_eq!(ToolchainOverride::from_key(pinned(b"\xff/x").key()), None);
}

#[test]
fn distinct_overrides_have_distinct_keys() {
    let all = vec![
        ToolchainOverride::Default,
        versioned(Channel::Stable, None),
        versioned(Channel::Stable, Some("")),
        versioned(Channel::Stable, Some("-")),
        versioned(Channel::Stable, Some("1.78")),
        versioned(Channel::Beta, None),
        versioned(Channel::Beta, Some("1.78")),
        versioned(Channel::Nightly, Some("1.78")),
        versioned(Channel::Stable, Some("default")),
        pinned(b""),
        pinned(b"default"),
        pinned(b"external-stable"),
        pinned(b"/"),
        pinned(b"\x10"),
        pinned(b"\x102f"),
        pinned(b"\x1010"),
        pinned(b"a/b"),
        pinned(b"a\x10b"),
        pinned(b"\xc3\xa9"),
        pinned(b"\xc3"),
        pinned(b"c3"),
    ];
    for (i, a) in all.iter().enumerate() {
        for (j, b) in all.iter().enumerate() {
            assert_eq!(a.key() == b.key(), i == j);
        }
    }
}

#[test]
fn an_escaped_separator_is_read_as_one_byte() {
    assert_eq!(
        ToolchainOverride::from_key(b"file-\x102f".to_vec()),
        Some(pinned(b"/"))
    );
    assert_eq!(
        ToolchainOverride::from_key(b"file-a\x102fb".to_vec()),
        Some(pinned(b"a/b"))
    );
    assert_eq!(
        ToolchainOverride::from_key(b"file-\x102F".to_vec()),
        Some(pinned(b"/"))
    );
    assert_eq!(
        ToolchainOverride::from_key(b"file-\x1010".to_vec()),
        Some(pinned(b"\x10"))
    );
}

#[test]
fn reads_plain_keys() {
    assert_eq!(
        ToolchainOverride::from_key(b"default".to_vec()),
        Some(ToolchainOverride::Default)
    );
    assert_eq!(
        ToolchainOverride::from_key(b"external-stable".to_vec()),
        Some(versioned(Channel::Stable, None))
    );
    assert_eq!(
        ToolchainOverride::from_key(b"external-stable-".to_vec()),
        Some(versioned(Channel::Stable, Some("")))
    );
    assert_eq!(
        ToolchainOverride::from_key(b"external-stable-1.78".to_vec()),
        Some(versioned(Channel::Stable, Some("1.78")))
    );
    assert_eq!(
        ToolchainOverride::from_key(b"external-nightly-2024-05-01".to_vec()),
        Some(versioned(Channel::Nightly, Some("2024-05-01")))
    );
    assert_eq!(
        ToolchainOverride::from_key(b"external-beta-\xc3\xa9".to_vec()),
        Some(versioned(Channel::Beta, Some("\u{e9}")))
    );
    assert_eq!(
        ToolchainOverride::from_key(b"file-".to_vec()),
        Some(pinned(b""))
    );
    assert_eq!(
        ToolchainOverride::from_key(b"file-a/b".to_vec()),
        Some(pinned(b"a/b"))
    );
    assert_eq!(
        ToolchainOverride::from_key(b"file-\xc3\xa9".to_vec()),
        Some(pinned(b"\xc3\xa9"))
    );
}

#[test]
fn what_is_no_key_is_not_read() {
    let none: Vec<&[u8]> = vec![
        b"",
        b"defaul",
        b"default ",
        b"Default",
        b"file",
        b"external",
        b"external-",
        b"external-stabl",
        b"external-stablex",
        b"external-Stable",
        b"external--1.78",
        b"external-stable-\xff",
        b"external-stable-\xc3",
        b"external-st\xc3\xa9-1",
        b"file-\x10",
        b"file-\x102",
        b"file-a\x10",
        b"file-\x1000",
        b"file-\x1011",
        b"file-\x10c3",
        b"file-\x10zz",
        b"file-\x10+1",
        b"file-\x10 2f",
        b"file-\x102g",
        b"file-ok\x102fok\x1012",
        b"toolchain",
    ];
    for key in none {
        assert_eq!(ToolchainOverride::from_key(key.to_vec()), None);
    }
}

#[test]
fn a_listing_is_read_name_by_name() {
    let names: Vec<Vec<u8>> = vec![
        b"external-stable-1.78".to_vec(),
        b"lost+found".to_vec(),
        b"default".to_vec(),
        b"file-\x102ftmp\x102fp.toml".to_vec(),
        b"file-\x10".to_vec(),
        b"external-nightly".to_vec(),
        b"external-stable-\xff".to_vec(),
        b"default".to_vec(),
    ];
    assert_eq!(
        read_listing(&names),
        vec![
            Some(ToolchainOverride::Version {
                channel: Channel::Stable,
                version: Some("1.78".to_owned())
            }),
            None,
            Some(ToolchainOverride::Default),
            Some(ToolchainOverride::File(b"/tmp/p.toml".to_vec())),
            None,
            Some(ToolchainOverride::Version {
                channel: Channel::Nightly,
                version: None
            }),
            None,
            Some(ToolchainOverride::Default),
        ]
    );
    assert_eq!(read_listing(&Vec::new()), Vec::new());
    assert_eq!(
        read_listing(&vec![b"x".to_vec(), b"".to_vec()]),
        vec![None, None]
    );
}
