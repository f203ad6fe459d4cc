use blindtest::text::{char_is_whitespace, char_lower};
use blindtest::Question;

fn by_std(s: &str) -> String {
    s.split_whitespace().collect::<Vec<_>>().join(" ").to_ascii_lowercase()
}

#[test]
fn normalize_trims_collapses_and_lowers() {
    assert_eq!(Question::normalize_string("  Imagine   Dragons "), "imagine dragons");
}

#[test]
fn normalize_of_empty_and_blank_is_empty() {
    assert_eq!(Question::normalize_string(""), "");
    assert_eq!(Question::normalize_string("   "), "");
    assert_eq!(Question::normalize_string("\t\n\r"), "");
}

#[test]
fn normalize_single_word() {
    assert_eq!(Question::normalize_string("Believer"), "believer");
    assert_eq!(Question::normalize_string("x"), "x");
    assert_eq!(Question::normalize_string(" X"), "x");
    assert_eq!(Question::normalize_string("X "), "x");
}

#[test]
fn normalize_is_idempotent_on_samples() {
    for s in ["  Imagine   Dragons ", "a\tb\nc", "", "ÀB c", "A  B  C  ", "\u{3000}x\u{a0}y"] {
        let once = Question::normalize_string(s);
        let twice = Question::normalize_string(&once);
        assert_eq!(once, twice);
    }
}

#[test]
fn normalize_ignores_spacing_and_case() {
    let want = Question::normalize_string("imagine dragons");
    for s in [
        "imagine dragons",
        "Imagine Dragons",
        "IMAGINE DRAGONS",
        " imagine dragons",
        "imagine dragons ",
        "imagine\tdragons",
        "imagine \n\t dragons",
        "\u{2003}iMaGiNe\u{a0}\u{a0}DrAgOnS\u{3000}",
    ] {
        assert_eq!(Question::normalize_string(s), want);
    }
    assert_ne!(Question::normalize_string("imaginedragons"), want);
}

#[test]
fn normalize_keeps_letters_outside_ascii() {
    assert_eq!(Question::normalize_string("ÉCOLE  Été"), "École Été");
}

#[test]
fn normalize_agrees_with_std_on_samples() {
    for s in [
        "",
        " ",
        "a",
        "  Imagine   Dragons ",
        "Tab\tSeparated\tWords",
        "line\nbreaks\r\nand more",
        "\u{85}next\u{85}line",
        "\u{1680}ogham\u{1680}",
        "\u{2000}\u{2001}\u{2002}a\u{2003}\u{2004}b\u{2005}\u{2006}c\u{2007}\u{2008}d\u{2009}\u{200a}",
        "\u{2028}x\u{2029}y\u{202f}z\u{205f}w\u{3000}",
        "zero\u{200b}width is no space",
        "\u{180e}mongolian",
        "ÀÉÎ õü ß",
        "MiXeD 123 !?",
    ] {
        assert_eq!(Question::normalize_string(s), by_std(s));
    }
}

#[test]
fn whitespace_is_what_std_calls_whitespace() {
    for code in 0u32..=0x10ffff {
        if let Some(c) = char::from_u32(code) {
            assert_eq!(char_is_whitespace(c), c.is_whitespace());
        }
    }
}

#[test]
fn lowering_is_what_std_calls_ascii_lowercase() {
    for code in 0u32..=0x10ffff {
        if let Some(c) = char::from_u32(code) {
            assert_eq!(char_lower(c), c.to_ascii_lowercase());
        }
    }
}
