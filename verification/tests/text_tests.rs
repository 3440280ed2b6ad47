use fphoto_renamer_core::sanitize::{
    build_exclusion_variants, compact_separator_before_plus, ensure_separator_after_plus,
    is_collapse_separator, is_disallowed_char, is_windows_reserved, normalize_plus_char,
    normalize_separator_variant, push_unique_case_insensitive, remove_matches,
    replace_case_insensitive, replace_whitespace_runs, truncate_chars,
};
use fphoto_renamer_core::template::{
    format_date, normalize_literal_connector, normalize_token_value, parse_token, same_maker, Token,
};
use fphoto_renamer_core::text::{
    append_chars, char_ascii_lower, char_ascii_upper, char_is_control, char_is_space, chars_equal,
    chars_of, copy_range, equal_ignoring_ascii_case, find_from, has_part, has_word, lower_chars,
    push_padded, push_signed_padded, replace_all, starts_at, string_of, trim_chars, trim_end_chars,
    upper_chars, CharClass,
};
use fphoto_renamer_core::metadata::CaptureDate;
use fphoto_renamer_core::xmp_reader::{scan_to, Stop};

const SAMPLES: [&str; 12] = [
    "",
    " ",
    "plain",
    "  two  words \t",
    "\u{3000}full width\u{a0}",
    "a_b-c d.e",
    "__x__",
    " . x . ",
    "\"quoted\"",
    "\0nul\0",
    "強化 NR",
    "MiXeD Case ÄÖ",
];

fn run(f: impl Fn(&Vec<char>) -> Vec<char>, text: &str) -> String {
    string_of(&f(&chars_of(text)))
}

#[test]
fn character_classes_agree_with_std() {
    for code in 0..=0x10ffffu32 {
        let Some(c) = char::from_u32(code) else {
            continue;
        };
        assert_eq!(char_is_space(c), c.is_whitespace(), "white space {code:x}");
        assert_eq!(char_is_control(c), c.is_control(), "control {code:x}");
        assert_eq!(char_ascii_upper(c), c.to_ascii_uppercase(), "upper {code:x}");
        assert_eq!(char_ascii_lower(c), c.to_ascii_lowercase(), "lower {code:x}");
        assert_eq!(Stop::Blank.stops_at(c), c.is_ascii_whitespace(), "blank {code:x}");
        assert_eq!(Stop::NonSpace.stops_at(c), !c.is_whitespace(), "space {code:x}");
        assert_eq!(
            is_disallowed_char(c),
            "\\/:*?\"<>|".contains(c) || c.is_control(),
            "illegal {code:x}"
        );
        assert_eq!(is_collapse_separator(c), c == '_' || c == '-' || c == ' ');
    }
}

#[test]
fn texts_and_characters_convert_both_ways() {
    for sample in SAMPLES {
        let chars = chars_of(sample);
        assert_eq!(chars, sample.chars().collect::<Vec<char>>());
        assert_eq!(string_of(&chars), sample);
    }
}

#[test]
fn trims_agree_with_std() {
    for sample in SAMPLES {
        assert_eq!(run(|v| trim_chars(v, CharClass::Space), sample), sample.trim());
        assert_eq!(
            run(|v| trim_chars(v, CharClass::NameEdge), sample),
            sample.trim_matches(|c: char| c == '_' || c == '-' || c == ' ' || c == '.')
        );
        assert_eq!(run(|v| trim_end_chars(v, CharClass::DotOrBlank), sample), sample.trim_end_matches([' ', '.']));
        assert_eq!(run(|v| trim_chars(v, CharClass::Quote), sample), sample.trim_matches('"'));
        assert_eq!(run(|v| trim_chars(v, CharClass::Nul), sample), sample.trim_matches('\0'));
        assert_eq!(run(upper_chars, sample), sample.to_ascii_uppercase());
        assert_eq!(run(lower_chars, sample), sample.to_ascii_lowercase());
        assert_eq!(
            run(normalize_token_value, sample),
            sample.split_whitespace().collect::<Vec<_>>().join("-")
        );
        assert_eq!(run(normalize_literal_connector, sample), sample.replace('-', "_"));
        assert_eq!(run(normalize_plus_char, sample), sample.replace('＋', "+"));
    }
}

#[test]
fn searching_agrees_with_std() {
    let hay = "abcabc-ab強化ab";
    for needle in ["ab", "abc", "c-a", "強化", "x", "", "abcabc-ab強化abX"] {
        let (h, n) = (chars_of(hay), chars_of(needle));
        assert_eq!(has_part(&h, &n), hay.contains(needle), "{needle}");
        assert_eq!(has_word(&h, needle), hay.contains(needle), "{needle}");
        let expected = hay.find(needle).map(|byte| hay[..byte].chars().count());
        assert_eq!(find_from(&h, &n, 0), expected, "{needle}");
        assert_eq!(starts_at(&h, &n, 0), hay.starts_with(needle), "{needle}");
        if !needle.is_empty() {
            assert_eq!(string_of(&replace_all(&h, needle, "<>")), hay.replace(needle, "<>"), "{needle}");
        }
    }
    assert_eq!(find_from(&chars_of("aaa"), &chars_of("a"), 1), Some(1));
    assert_eq!(find_from(&chars_of("aaa"), &chars_of("a"), 3), None);
    assert_eq!(find_from(&chars_of("aaa"), &chars_of(""), 3), Some(3));
    assert_eq!(find_from(&chars_of("aaa"), &chars_of("a"), 7), None);
    assert_eq!(string_of(&replace_all(&chars_of("aaa"), "aa", "b")), "ba");
    assert_eq!(string_of(&replace_all(&chars_of("abc"), "", "x")), "abc");
    assert!(chars_equal(&chars_of("a"), &chars_of("a")) && !chars_equal(&chars_of("a"), &chars_of("A")));
    assert!(equal_ignoring_ascii_case(&chars_of("JpG"), &chars_of("jPg")));
    assert!(!equal_ignoring_ascii_case(&chars_of("ä"), &chars_of("Ä")));
    assert_eq!(string_of(&copy_range(&chars_of("abcdef"), 2, 4)), "cd");
    let mut out = chars_of("ab");
    append_chars(&mut out, &chars_of("cd"));
    assert_eq!(string_of(&out), "abcd");
}

#[test]
fn numbers_are_written_as_std_writes_them() {
    for n in [0u128, 7, 9, 10, 99, 100, 999, 1000, 1234567890123, u64::MAX as u128, u128::MAX] {
        for width in [0usize, 1, 2, 3, 4, 45] {
            let mut out = Vec::new();
            push_padded(&mut out, n, width);
            assert_eq!(string_of(&out), format!("{n:0width$}"), "{n} in {width}");
        }
    }
    for n in [0i64, 5, -5, 42, -42, 2026, -2026, 12345, -12345, i64::MAX, i64::MIN + 1] {
        for width in [0usize, 1, 2, 4, 7] {
            let mut out = chars_of("x");
            push_signed_padded(&mut out, n, width);
            assert_eq!(string_of(&out), format!("x{n:0width$}"), "{n} in {width}");
        }
    }
    let date = CaptureDate { year: 5, month: 6, day: 7, hour: 8, minute: 9, second: 1 };
    assert_eq!(string_of(&format_date(&date)), "00050607080901");
    let date = CaptureDate { year: -1, month: 12, day: 31, hour: 23, minute: 59, second: 59 };
    assert_eq!(string_of(&format_date(&date)), "-0011231235959");
}

#[test]
fn case_insensitive_removal() {
    let remove = |hay: &str, needle: &str| string_of(&replace_case_insensitive(&chars_of(hay), &chars_of(needle)));
    assert_eq!(remove("Fuji_FUJIFILM_fuji", "fUji"), "_FILM_");
    assert_eq!(remove("aAaA", "aa"), "");
    assert_eq!(remove("aAa", "aa"), "a");
    assert_eq!(remove("abc", ""), "abc");
    assert_eq!(remove("", "x"), "");
    assert_eq!(remove("ÄÖÜ-äöü", "äöü"), "-");
    assert_eq!(remove("強化NR", "強化"), "NR");
    // where the lower-case form has another length, the text is left as it is
    assert_eq!(remove("İstanbul_x", "x"), "İstanbul_x");
    let cut = remove_matches(&chars_of("ABCD"), &chars_of("abcd"), &chars_of("bc"));
    assert_eq!(string_of(&cut), "AD");
    let kept = remove_matches(&chars_of("ABCD"), &chars_of("abc"), &chars_of("bc"));
    assert_eq!(string_of(&kept), "ABCD");
}

#[test]
fn forms_of_an_exclusion_term() {
    let forms = |term: &str| -> Vec<String> {
        build_exclusion_variants(&chars_of(term)).iter().map(string_of).collect()
    };
    assert_eq!(forms("reala ace"), vec!["reala ace", "reala-ace", "reala_ace"]);
    assert_eq!(forms("plain"), vec!["plain"]);
    assert_eq!(
        forms("ACROS + R"),
        vec![
            "ACROS + R",
            "ACROS-+-R",
            "ACROS_+_R",
            "ACROS+ R",
            "ACROS+-R",
            "ACROS+_R",
        ]
    );
    assert_eq!(forms("A+B"), vec!["A+B", "A+-B", "A+_B"]);
    assert_eq!(forms("a＋b"), vec!["a+b", "a+-b", "a+_b"]);
    assert_eq!(run(compact_separator_before_plus, "a _-+b - c+"), "a+b - c+");
    assert_eq!(run(compact_separator_before_plus, "a - "), "a - ");
    assert_eq!(run(|v| ensure_separator_after_plus(v, '-'), "a+b+ c++d+"), "a+-b+ c++-d+");
    assert_eq!(run(|v| normalize_separator_variant(v, '-'), " a _-b  c"), "-a-b-c");
    assert_eq!(run(|v| replace_whitespace_runs(v, '_'), " a _-b  c"), "_a__-b_c");
    let mut list = vec![chars_of("Abc")];
    push_unique_case_insensitive(&mut list, chars_of("aBC"));
    push_unique_case_insensitive(&mut list, chars_of(""));
    push_unique_case_insensitive(&mut list, chars_of("abd"));
    assert_eq!(list, vec![chars_of("Abc"), chars_of("abd")]);
}

#[test]
fn reserved_names_and_truncation() {
    for name in ["CON", "prn", "Aux.txt", "nul.a.b", "COM1", "lpt9", "Com5.jpg"] {
        assert!(is_windows_reserved(&chars_of(name)), "{name}");
    }
    for name in ["CONS", "COM", "COM0", "COM10", "LPT", "xCON", ".CON", "", "C0N"] {
        assert!(!is_windows_reserved(&chars_of(name)), "{name}");
    }
    let cut = |name: &str, ext: usize, limit: usize| string_of(&truncate_chars(&chars_of(name), ext, limit));
    assert_eq!(cut("a_b_c", 4, 9), "a_b_c");
    assert_eq!(cut("a_b_c", 4, 8), "a_b");
    assert_eq!(cut("a_b_c", 4, 5), "a");
    assert_eq!(cut("_abc", 4, 4), "");
    assert_eq!(cut("abcdef", 4, 6), "ab");
    assert_eq!(cut("abcdef", 4, 3), "");
    assert_eq!(cut("abc", usize::MAX, usize::MAX), "");
    assert_eq!(cut("", 4, 0), "");
}

#[test]
fn tokens_and_makers() {
    assert_eq!(parse_token(&chars_of("film_sim")), Ok(Token::FilmSim));
    assert_eq!(parse_token(&chars_of("lens_maker")), Ok(Token::LensMake));
    assert!(parse_token(&chars_of("Film_Sim")).is_err());
    assert!(same_maker(&Some("FUJIFILM".to_string()), &Some("fujifilm".to_string())));
    assert!(!same_maker(&Some("FUJIFILM".to_string()), &Some("FUJI".to_string())));
    assert!(!same_maker(&None, &Some("x".to_string())));
    assert!(!same_maker(&None, &None));
}

#[test]
fn scans_stop_where_asked() {
    let text = chars_of("ab =c/\u{3000}d");
    assert_eq!(scan_to(&text, 0, Stop::Blank), 2);
    assert_eq!(scan_to(&text, 2, Stop::NonBlank), 3);
    assert_eq!(scan_to(&text, 0, Stop::NameEnd), 2);
    assert_eq!(scan_to(&text, 3, Stop::NameEnd), 3);
    assert_eq!(scan_to(&text, 4, Stop::NameEnd), 5);
    assert_eq!(scan_to(&text, 0, Stop::Char('/')), 5);
    assert_eq!(scan_to(&text, 3, Stop::Space), 6);
    assert_eq!(scan_to(&text, 6, Stop::NonSpace), 7);
    assert_eq!(scan_to(&text, 0, Stop::Char('x')), 8);
    assert_eq!(scan_to(&text, 8, Stop::Blank), 8);
}
