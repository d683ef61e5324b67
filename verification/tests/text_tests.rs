use miurbot::text::{chars_of, lossy_text, string_from_chars, trim_bounds, trim_str};

#[test]
fn trim_removes_ascii_and_unicode_white_space() {
    assert_eq!(trim_str("\u{3000} \t hi there \n\u{a0}"), "hi there");
    assert_eq!(trim_str("\u{2028}x\u{205f}"), "x");
}

#[test]
fn trim_keeps_inner_white_space_and_other_characters() {
    assert_eq!(trim_str("a \u{3000} b"), "a \u{3000} b");
    assert_eq!(trim_str("\u{200b}zero width\u{200b}"), "\u{200b}zero width\u{200b}");
}

#[test]
fn trim_of_blank_text_is_empty() {
    assert_eq!(trim_str(""), "");
    assert_eq!(trim_str(" \r\n\t "), "");
}

#[test]
fn trim_twice_equals_trim_once() {
    for s in ["  data: x  ", "\n", "abc", " \u{85}y\u{85} "] {
        let once = trim_str(s);
        assert_eq!(trim_str(&once), once);
    }
}

#[test]
fn trim_bounds_locate_the_trimmed_text() {
    let v = chars_of("  ab c ");
    assert_eq!(trim_bounds(&v), (2, 6));
    assert_eq!(string_from_chars(&v, 2, 6), "ab c");
}

#[test]
fn chars_of_lists_unicode_characters() {
    assert_eq!(chars_of("米儿!"), vec!['米', '儿', '!']);
}

#[test]
fn lossy_text_decodes_valid_utf8() {
    assert_eq!(lossy_text("你好".as_bytes()), "你好");
}

#[test]
fn lossy_text_replaces_invalid_bytes() {
    assert_eq!(lossy_text(&[0x68, 0xff, 0x69]), "h\u{FFFD}i");
}

/// The characters with the Unicode `White_Space` property.
fn listed_white_space(c: char) -> bool {
    let u = c as u32;
    (0x09..=0x0d).contains(&u)
        || u == 0x20
        || u == 0x85
        || u == 0xa0
        || u == 0x1680
        || (0x2000..=0x200a).contains(&u)
        || u == 0x2028
        || u == 0x2029
        || u == 0x202f
        || u == 0x205f
        || u == 0x3000
}

#[test]
fn trim_removes_exactly_the_white_space_characters() {
    let candidates = (0u32..0x3100).chain([0xfeff, 0xffef, 0x1_0000, 0x10_ffff]);
    for u in candidates {
        if let Some(c) = char::from_u32(u) {
            let t = trim_str(&c.to_string());
            assert_eq!(t.is_empty(), listed_white_space(c), "U+{:04X}", u);
        }
    }
}
