use webview_app::encode::{escape_xml, percent_encode, uri_encode_path, wide_null};

#[test]
fn percent_encoding_keeps_unreserved_bytes() {
    assert_eq!(percent_encode("aZ09-._~"), "aZ09-._~");
    assert_eq!(percent_encode("a b/ü"), "a%20b%2F%C3%BC");
    assert_eq!(percent_encode(""), "");
    assert_eq!(percent_encode("%:?"), "%25%3A%3F");
}

#[test]
fn path_encoding_also_keeps_slash_and_colon() {
    assert_eq!(uri_encode_path("C:/x y/é~"), "C:/x%20y/%C3%A9~");
    assert_eq!(uri_encode_path("a#b"), "a%23b");
}

fn percent_decode(s: &str) -> Vec<u8> {
    let b = s.as_bytes();
    let mut out = Vec::new();
    let mut i = 0;
    while i < b.len() {
        if b[i] == b'%' {
            out.push(u8::from_str_radix(&s[i + 1..i + 3], 16).unwrap());
            i += 3;
        } else {
            out.push(b[i]);
            i += 1;
        }
    }
    out
}

#[test]
fn percent_encoding_round_trips() {
    for s in ["", "hello world", "ü→😀", "100% /?#[]@!$&'()*+,;=", "\u{0}\u{7f}"] {
        assert_eq!(percent_decode(&percent_encode(s)), s.as_bytes());
        assert_eq!(percent_decode(&uri_encode_path(s)), s.as_bytes());
    }
}

#[test]
fn xml_escaping_replaces_markup_characters() {
    assert_eq!(
        escape_xml("<a href=\"x\">'&'</a>"),
        "&lt;a href=&quot;x&quot;&gt;&apos;&amp;&apos;&lt;/a&gt;"
    );
    assert_eq!(escape_xml("plain ü"), "plain ü");
    assert_eq!(escape_xml("&amp;"), "&amp;amp;");
}

#[test]
fn xml_escaping_round_trips_and_is_safe() {
    for s in ["", "<>&\"'", "a&lt;b", "x'y\"z"] {
        let e = escape_xml(s);
        assert!(!e.contains(['<', '>', '"', '\'']));
        let back = e
            .replace("&lt;", "<")
            .replace("&gt;", ">")
            .replace("&quot;", "\"")
            .replace("&apos;", "'")
            .replace("&amp;", "&");
        assert_eq!(back, s);
    }
}

#[test]
fn wide_strings_are_utf16_with_one_terminator() {
    assert_eq!(wide_null(""), vec![0]);
    assert_eq!(wide_null("A😀é"), vec![0x41, 0xD83D, 0xDE00, 0xE9, 0]);
    let expected: Vec<u16> = "open".encode_utf16().chain(std::iter::once(0)).collect();
    assert_eq!(wide_null("open"), expected);
    let w = wide_null("no nul 😀 here");
    assert_eq!(w.iter().filter(|&&u| u == 0).count(), 1);
    assert_eq!(*w.last().unwrap(), 0);
}

#[test]
fn percent_encoding_shape() {
    for s in ["", "a b", "ü→😀", "100% /?#", "aZ09-._~"] {
        let e = percent_encode(s);
        let escaped = s
            .bytes()
            .filter(|b| !(b.is_ascii_alphanumeric() || b"-._~".contains(b)))
            .count();
        assert_eq!(e.len(), s.len() + 2 * escaped);
        let b = e.as_bytes();
        for (i, &c) in b.iter().enumerate() {
            assert!(c.is_ascii_alphanumeric() || b"-._~%".contains(&c));
            if c == b'%' {
                assert!(b[i + 1].is_ascii_hexdigit() && !b[i + 1].is_ascii_lowercase());
                assert!(b[i + 2].is_ascii_hexdigit() && !b[i + 2].is_ascii_lowercase());
            }
        }
    }
}
