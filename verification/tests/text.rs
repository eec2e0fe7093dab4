use combo_crawler::text::chars_of;
use combo_crawler::text::is_space_char;
use combo_crawler::text::own;
use combo_crawler::text::push_decimal;
use combo_crawler::text::push_joined;
use combo_crawler::text::str_eq;
use combo_crawler::text::text_of;
use combo_crawler::text::trim_and_escape;

#[test]
fn white_space_is_what_std_calls_white_space() {
    for code in 0..=0x10FFFFu32 {
        if let Some(c) = char::from_u32(code) {
            assert_eq!(is_space_char(c), c.is_whitespace(), "U+{code:04X}");
        }
    }
}

#[test]
fn trim_and_escape_agrees_with_std() {
    let samples = [
        "",
        " ",
        "a",
        "  a  b  ",
        "\t\u{2003}Ghave, Guru of Spores\u{85}\n",
        "Ashnod's Altar",
        ",,'' ",
        "\u{200B} zero width space is no white space \u{200B}",
        "\u{1680}x\u{205F}",
    ];
    for sample in samples {
        let expected = sample.trim().replace(" ", "%20").replace(",", "%2C").replace("'", "%27");
        assert_eq!(text_of(&trim_and_escape(sample)), expected, "{sample:?}");
    }
}

#[test]
fn decimal_is_what_std_prints() {
    for n in [0u64, 1, 9, 10, 11, 99, 100, 101, 4294967295, 4294967296, u64::MAX] {
        let mut out = vec!['#'];
        push_decimal(&mut out, n);
        assert_eq!(text_of(&out), format!("#{n}"));
    }
}

#[test]
fn chars_and_text_are_each_other_s_inverse() {
    for sample in ["", "abc", "é\u{10000}z", "a\u{0}b"] {
        assert_eq!(text_of(&chars_of(sample)), sample);
        assert_eq!(chars_of(sample), sample.chars().collect::<Vec<char>>());
        assert_eq!(own(sample), sample);
    }
}

#[test]
fn str_eq_compares_whole_texts() {
    assert!(str_eq("", ""));
    assert!(str_eq("abc", "abc"));
    assert!(!str_eq("abc", "abd"));
    assert!(!str_eq("abc", "ab"));
    assert!(!str_eq("", "a"));
}

#[test]
fn joined_parts_have_the_separator_between_them() {
    let parts = |names: &[&str]| names.iter().map(|n| n.to_string()).collect::<Vec<String>>();
    for names in [&[][..], &["a"][..], &["a", "b"][..], &["", "", ""][..], &["x", "", "y"][..]] {
        let mut out = vec!['>'];
        push_joined(&mut out, &parts(names), ", ");
        assert_eq!(text_of(&out), format!(">{}", names.join(", ")));
    }
}
