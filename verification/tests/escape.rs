use rustdn::escape::{escape_into, unescape_path, ESC, SEP};

fn escaped(path: &[u8]) -> Vec<u8> {
    let mut out = Vec::new();
    escape_into(path, &mut out);
    out
}

#[test]
fn the_escape_byte_and_the_separator() {
    assert_eq!(ESC, 0x10);
    assert_eq!(SEP, b'/');
}

#[test]
fn plain_bytes_stand_for_themselves() {
    assert_eq!(escaped(b""), b"".to_vec());
    assert_eq!(escaped(b"abc.toml"), b"abc.toml".to_vec());
    let plain: Vec<u8> = (0u8..0x80).filter(|&b| b != 0x10 && b != b'/').collect();
    assert_eq!(escaped(&plain), plain);
}

#[test]
fn other_bytes_become_two_lowercase_digits() {
    assert_eq!(escaped(b"/"), b"\x102f".to_vec());
    assert_eq!(escaped(b"\x10"), b"\x1010".to_vec());
    assert_eq!(escaped(b"\x80"), b"\x1080".to_vec());
    assert_eq!(escaped(b"\xab"), b"\x10ab".to_vec());
    assert_eq!(escaped(b"\xff"), b"\x10ff".to_vec());
    assert_eq!(escaped(b"\xc3\xa9"), b"\x10c3\x10a9".to_vec());
    for b in 0x80u8..=0xff {
        let text = escaped(&[b]);
        assert_eq!(text.len(), 3);
        assert_eq!(text[0], 0x10);
        assert_eq!(
            String::from_utf8(text[1..].to_vec()).unwrap(),
            format!("{b:02x}")
        );
    }
}

#[test]
fn escaping_appends() {
    let mut out = b"file-".to_vec();
    escape_into(b"a/b", &mut out);
    assert_eq!(out, b"file-a\x102fb".to_vec());
    escape_into(b"", &mut out);
    assert_eq!(out, b"file-a\x102fb".to_vec());
    escape_into(b"\x10", &mut out);
    assert_eq!(out, b"file-a\x102fb\x1010".to_vec());
}

#[test]
fn every_path_of_ascii_is_read_back() {
    for a in 0u8..0x80 {
        for b in [0u8, 0x10, b'/', b'2', b'f', 0x7f] {
            let path = vec![a, b, a];
            assert_eq!(unescape_path(&escaped(&path)), Some(path));
        }
    }
}

#[test]
fn a_byte_above_ascii_is_not_read_back() {
    for b in 0x80u8..=0xff {
        assert_eq!(unescape_path(&escaped(&[b])), None);
        assert_eq!(unescape_path(&escaped(&[b'a', b, b'/'])), None);
    }
}

#[test]
fn reads_what_is_well_formed() {
    assert_eq!(unescape_path(b""), Some(Vec::new()));
    assert_eq!(unescape_path(b"abc"), Some(b"abc".to_vec()));
    assert_eq!(unescape_path(b"a/b"), Some(b"a/b".to_vec()));
    assert_eq!(unescape_path(b"\x102f"), Some(b"/".to_vec()));
    assert_eq!(unescape_path(b"\x102F"), Some(b"/".to_vec()));
    assert_eq!(unescape_path(b"\x1010"), Some(b"\x10".to_vec()));
    assert_eq!(unescape_path(b"\x102f\x102f"), Some(b"//".to_vec()));
    assert_eq!(unescape_path(b"a\x102fb\x1010c"), Some(b"a/b\x10c".to_vec()));
    assert_eq!(unescape_path(b"\x80\xff"), Some(b"\x80\xff".to_vec()));
}

#[test]
fn refuses_what_is_malformed() {
    let malformed: Vec<&[u8]> = vec![
        b"\x10",
        b"\x101",
        b"\x102",
        b"ab\x10",
        b"ab\x102",
        b"\x1000",
        b"\x100f",
        b"\x1011",
        b"\x102e",
        b"\x1030",
        b"\x107f",
        b"\x1080",
        b"\x10ff",
        b"\x10FF",
        b"\x10g0",
        b"\x101g",
        b"\x10+1",
        b"\x10-1",
        b"\x10 1",
        b"\x10\x10\x10",
        b"\x10\x1010",
        b"\x102f\x10",
    ];
    for text in malformed {
        assert_eq!(unescape_path(text), None);
    }
}
