use bar_data::text::trim;

#[test]
fn trim_strips_unicode_white_space() {
    assert_eq!(trim("\u{3000}\t rock.dds\u{a0}\n"), "rock.dds");
    assert_eq!(trim("\u{2028}a b\u{85}"), "a b");
}

#[test]
fn trim_of_blank_is_empty() {
    assert_eq!(trim(""), "");
    assert_eq!(trim(" \u{2009}\r\n"), "");
}

#[test]
fn trim_keeps_other_characters() {
    // U+200B is not White_Space, so it stays.
    assert_eq!(trim("\u{200b}x "), "\u{200b}x");
    for s in ["  x\u{1680}", "\u{205f}y", "z\u{202f}", "\u{b}q\u{c}"] {
        assert_eq!(trim(s), s.trim());
    }
}
