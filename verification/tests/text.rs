use type_chart::text::{space, trim};

#[test]
fn space_is_unicode_white_space() {
    for code in 0..=0x10FFFFu32 {
        if let Some(c) = char::from_u32(code) {
            assert_eq!(space(c), c.is_whitespace(), "U+{:04X}", code);
        }
    }
}

#[test]
fn trim_removes_white_space_at_both_ends() {
    assert_eq!(trim(""), "");
    assert_eq!(trim("   "), "");
    assert_eq!(trim("a"), "a");
    assert_eq!(trim(" a"), "a");
    assert_eq!(trim("a "), "a");
    assert_eq!(trim(" \t\r\n Super Effective \u{3000}\u{a0}"), "Super Effective");
    assert_eq!(trim("  not  very  "), "not  very");
    assert_eq!(trim("\u{2003}é\u{2003}ß\u{2003}"), "é\u{2003}ß");
}

#[test]
fn trim_agrees_with_std() {
    let samples = [
        "", " ", "x", " x", "x ", " x y ", "\n\tFire\r\n", "\u{85}a\u{1680}", "\u{200b} a ",
        "\u{feff}b", " 🔥 ", "\u{2028}\u{2029}", "a\u{202f}", "\u{205f}a\u{205f}b\u{205f}",
    ];
    for sample in samples {
        assert_eq!(trim(sample), sample.trim(), "{:?}", sample);
    }
}
