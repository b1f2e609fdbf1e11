use sigilsmith::calendar::{
    format_blank_date, format_date_cell, format_short_date, locale_hint, prefers_mdy, prefers_ymd,
};
use sigilsmith::input_text::{
    display_path, expand_tilde, from_hex, parse_duplicate_answer, percent_decode,
    strip_outer_quotes, summarize_error, unescape_shell, CliDuplicateAction,
};
use sigilsmith::library::{clean_source_label, normalize_label, normalize_times, resolve_times};
use sigilsmith::paths::{
    extension, file_name, has_component, has_extension, join_path, key_of, lies_within, stem,
};
use sigilsmith::mod_table::mod_filter_normalized;
use sigilsmith::text::{parse_u64, split_words, trim};
use sigilsmith::versions::{
    extract_semver, extract_timestamp, levenshtein, semver_stamp, similarity_ratio,
};

#[test]
fn outer_quotes_go() {
    assert_eq!(strip_outer_quotes("\"a b\""), "a b");
    assert_eq!(strip_outer_quotes("'a'"), "a");
    assert_eq!(strip_outer_quotes("\"a'"), "\"a'");
    assert_eq!(strip_outer_quotes("\""), "\"");
}

#[test]
fn shell_escapes_go() {
    assert_eq!(unescape_shell("a\\ b"), "a b");
    assert_eq!(unescape_shell("a\\\\b"), "a\\b");
    assert_eq!(unescape_shell("plain"), "plain");
}

#[test]
fn hex_digits() {
    assert_eq!(from_hex(b'0'), Some(0));
    assert_eq!(from_hex(b'f'), Some(15));
    assert_eq!(from_hex(b'F'), Some(15));
    assert_eq!(from_hex(b'g'), None);
}

#[test]
fn percents_are_decoded() {
    assert_eq!(percent_decode("a%20b"), "a b");
    assert_eq!(percent_decode("100%"), "100%");
    assert_eq!(percent_decode("%zz"), "%zz");
}

#[test]
fn home_is_expanded() {
    let home = Some("/home/u".to_string());
    assert_eq!(expand_tilde("~/mods/a.zip", &home), "/home/u/mods/a.zip");
    assert_eq!(expand_tilde("~", &home), "/home/u/");
    assert_eq!(expand_tilde("/abs", &home), "/abs");
    assert_eq!(expand_tilde("~/x", &None), "~/x");
    assert_eq!(expand_tilde("'/a b'", &home), "/a b");
    assert_eq!(expand_tilde("file:///tmp/a%20b", &home), "/tmp/a b");
}

#[test]
fn paths_show_their_last_part() {
    assert_eq!(display_path("/tmp/mods/a.zip"), "a.zip");
    assert_eq!(display_path("/"), "/");
}

#[test]
fn errors_in_short() {
    assert_eq!(summarize_error("open: Permission denied (os error 13)"), "permission denied");
    assert_eq!(summarize_error("x: Device or resource busy"), "file in use");
    assert_eq!(summarize_error("read: No such file or directory"), "file not found");
    assert_eq!(summarize_error("a: Is a directory"), "expected a file");
    assert_eq!(summarize_error("a: Not a directory"), "expected a folder");
    assert_eq!(summarize_error("no meta.lsx in pak"), "mod metadata missing");
    assert_eq!(summarize_error("outer: inner cause\nmore"), "inner cause");
}

#[test]
fn answers_to_duplicates() {
    assert_eq!(parse_duplicate_answer("y", None), CliDuplicateAction::Overwrite);
    assert_eq!(parse_duplicate_answer("n", Some(true)), CliDuplicateAction::Skip);
    assert_eq!(parse_duplicate_answer("", Some(true)), CliDuplicateAction::Overwrite);
    assert_eq!(parse_duplicate_answer("", None), CliDuplicateAction::Skip);
    assert_eq!(parse_duplicate_answer("a", None), CliDuplicateAction::OverwriteAll);
    assert_eq!(parse_duplicate_answer("Skip-All", None), CliDuplicateAction::SkipAll);
    assert_eq!(parse_duplicate_answer("what", Some(true)), CliDuplicateAction::Skip);
}

#[test]
fn lower_case_of_other_scripts() {
    assert_eq!(mod_filter_normalized(" ÄÖÜ Mod "), Some("äöü mod".to_string()));
    assert_eq!(mod_filter_normalized("  "), None);
    assert_eq!(trim("  a b\t"), "a b");
    assert_eq!(split_words(" a  b "), vec!["a".to_string(), "b".to_string()]);
    assert_eq!(parse_u64("18446744073709551615"), Some(u64::MAX));
    assert_eq!(parse_u64("18446744073709551616"), None);
    assert_eq!(parse_u64("x"), None);
}

#[test]
fn parts_of_paths() {
    assert_eq!(file_name("a/b/c.pak"), Some("c.pak".to_string()));
    assert_eq!(file_name("/"), None);
    assert_eq!(join_path("/a", "b"), "/a/b");
    assert_eq!(join_path("/a/", "b"), "/a/b");
    assert_eq!(join_path("/a", "/b"), "/b");
    assert_eq!(extension("c.pak"), Some("pak".to_string()));
    assert_eq!(extension(".hidden"), None);
    assert_eq!(stem("c.tar.gz"), "c.tar");
    assert!(has_extension("A.PAK", "pak"));
    assert!(has_component("a/Generated/b", "generated"));
    assert!(lies_within("/a/b/c", "/a/b"));
    assert!(!lies_within("/a/bc", "/a/b"));
    assert_eq!(key_of("/a/b/"), key_of("/a/b"));
}

#[test]
fn distances_between_texts() {
    assert_eq!(levenshtein(b"kitten", b"sitting"), 3);
    assert_eq!(levenshtein(b"", b"abc"), 3);
    assert_eq!(levenshtein(b"same", b"same"), 0);
    let near = similarity_ratio("abcdefghij", "abcdefghix").unwrap();
    assert_eq!(near.changes, 1);
    assert_eq!(near.length, 10);
    assert!(near.similar_enough());
    assert_eq!(near.in_percent(), 90);
    let far = similarity_ratio("abc", "xyz").unwrap();
    assert!(!far.similar_enough());
    assert!(near.not_less(&far));
}

#[test]
fn versions_in_labels() {
    assert_eq!(extract_semver("Mod v1.2.3.4"), Some((1, 2, 3, 4)));
    assert_eq!(extract_semver("Mod 2.0"), Some((2, 0, 0, 0)));
    assert_eq!(extract_semver("Mod"), None);
    assert_eq!(semver_stamp(1, 2, 3, 4), 1_002_003_004);
    assert_eq!(semver_stamp(u64::MAX, 0, 0, 0), u64::MAX);
    assert_eq!(extract_timestamp("Mod-1234-1-0-1700000000"), Some(1_700_000_000));
    assert_eq!(extract_timestamp("Mod"), None);
}

#[test]
fn labels_are_cleaned() {
    assert_eq!(clean_source_label("Great Mod-1234-1-0-1700000000"), "Great Mod");
    assert_eq!(clean_source_label("Plain"), "Plain");
    assert_eq!(normalize_label("Great Mod!"), "greatmod");
}

#[test]
fn times_are_put_in_order() {
    assert_eq!(normalize_times(Some(5), Some(3)), (Some(3), Some(5)));
    assert_eq!(normalize_times(None, Some(3)), (Some(3), Some(3)));
    assert_eq!(normalize_times(None, None), (None, None));
    assert_eq!(resolve_times(Some(9), Some(1), Some(2)), (Some(9), Some(9)));
    assert_eq!(resolve_times(Some(9), Some(1), Some(12)), (Some(9), Some(12)));
    assert_eq!(resolve_times(None, Some(4), Some(2)), (Some(2), Some(4)));
}

#[test]
fn dates_by_locale() {
    assert_eq!(locale_hint(&Some(" ".to_string()), &Some("en_us".to_string())), "EN_US");
    assert_eq!(locale_hint(&None, &None), "");
    assert!(prefers_mdy("EN_US.UTF-8"));
    assert!(!prefers_mdy("DE_DE"));
    assert!(prefers_ymd("JA_JP"));
    assert_eq!(format_short_date(86_400, "EN_US"), Some("01-02-1970".to_string()));
    assert_eq!(format_short_date(1_700_000_000, "DE_DE"), Some("14-11-2023".to_string()));
    assert_eq!(format_short_date(1_700_000_000, "JA_JP"), Some("2023-11-14".to_string()));
    assert_eq!(format_short_date(0, "DE_DE"), None);
    assert_eq!(format_short_date(i64::MAX, "DE_DE"), None);
    assert_eq!(format_date_cell(None, "EN_US"), format_blank_date("EN_US"));
}

#[test]
fn labels_are_cleaned_once() {
    for label in [
        "Great_Mod-1234-1-0-1700000000",
        "  A\tB - C_ -12 ",
        "One--Two-7-",
        "123456",
        "- -",
        "x - y-z_w",
        "",
    ] {
        let once = clean_source_label(label);
        assert_eq!(clean_source_label(&once), once);
        assert!(!once.contains('_'));
        assert!(!once.contains("  "));
        assert_eq!(once.trim(), once);
    }
    assert_eq!(clean_source_label("  A\tB - C_ -12 "), "A B - C - 12");
    assert_eq!(clean_source_label("One--Two-7-"), "One-Two-7");
    assert_eq!(clean_source_label("123456"), "");
}

#[test]
fn label_keys_ignore_case() {
    for label in ["Great_Mod-1234-1-0-1700000000", "a - b", "Mod (v2)"] {
        let key = normalize_label(label);
        assert_eq!(normalize_label(&label.to_ascii_uppercase()), key);
        assert!(key.chars().all(|c| c.is_ascii_lowercase() || c.is_ascii_digit()));
    }
    assert_eq!(normalize_label("MOD (V2)"), "modv2");
}

#[test]
fn distances_are_least() {
    let (a, b, c) = (b"flaw".as_slice(), b"lawn".as_slice(), b"drawn".as_slice());
    assert_eq!(levenshtein(a, b), 2);
    assert_eq!(levenshtein(b, c), 2);
    assert_eq!(levenshtein(a, c), 3);
    assert!(levenshtein(a, c) <= levenshtein(a, b) + levenshtein(b, c));
    assert!(levenshtein(a, c) <= a.len().max(c.len()));
    assert!(levenshtein(a, b) > 0);
}
