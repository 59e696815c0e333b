use asearch::Asearch;

#[test]
fn pattern_abcde() {
    let asearch = Asearch::new("abcde");

    assert!(asearch.find("abcde", 0));
    assert!(asearch.find("aBCDe", 0));
    assert!(asearch.find("abXcde", 1));
    assert!(asearch.find("ab?de", 1));
    assert!(asearch.find("abXXde", 2));
    assert!(!asearch.find("abXcde", 0));
    assert!(!asearch.find("ab?de", 0));
    assert!(!asearch.find("abde", 0));
    assert!(!asearch.find("abXXde", 1));
    assert!(asearch.find("abcde", 1));
    assert!(!asearch.find("abcd", 0));
    assert!(asearch.find("abcd", 1));
    assert!(asearch.find("bcde", 2));
}

#[test]
fn pattern_ab_de() {
    let asearch = Asearch::new("ab de");

    assert!(asearch.find("abcde", 0));
    assert!(asearch.find("abccde", 0));
    assert!(asearch.find("abXXXXXXXde", 0));
    assert!(asearch.find("ababcccccxede", 1));
    assert!(!asearch.find("abcccccxe", 0));
}

#[test]
fn pattern_unicode() {
    let asearch = Asearch::new("漢字文字列");

    assert!(asearch.find("漢字文字列", 0));
    assert!(!asearch.find("漢字の文字列", 0));
    assert!(asearch.find("漢字の文字列", 1));
    assert!(!asearch.find("漢字文字", 0));
    assert!(asearch.find("漢字文字", 1));
    assert!(!asearch.find("漢字文字烈", 0));
    assert!(asearch.find("漢字文字烈", 1));
    assert!(!asearch.find("漢和辞典", 2));
}

#[test]
fn exact_match_up_to_ascii_case() {
    let asearch = Asearch::new("Hello");
    assert!(asearch.find("Hello", 0));
    assert!(asearch.find("hELLO", 0));
    assert!(!asearch.find("Helo", 0));
    assert!(!asearch.find("Helllo", 0));
    assert!(!asearch.find("Hallo", 0));
}

#[test]
fn case_folding_is_ascii_only() {
    let asearch = Asearch::new("abcde");
    assert!(asearch.find("ABCDE", 0));
    let accented = Asearch::new("é");
    assert!(accented.find("é", 0));
    assert!(!accented.find("É", 0));
    assert!(accented.find("É", 1));
}

#[test]
fn more_edits_never_lose_a_match() {
    let asearch = Asearch::new("abcde");
    for text in ["abcde", "abXcde", "abXXde", "abcd", "bcde", "xyzzy"] {
        for k in 0..3u8 {
            if asearch.find(text, k) {
                assert!(asearch.find(text, k + 1));
            }
        }
    }
}

#[test]
fn upper_levels_lag_on_short_texts() {
    let asearch = Asearch::new("a");
    assert!(!asearch.find("x", 0));
    assert!(asearch.find("x", 1));
    assert!(asearch.find("x", 2));
    assert!(!asearch.find("x", 3));
}

#[test]
fn wildcard_absorbs_any_run() {
    let asearch = Asearch::new("ab de");
    assert!(asearch.find("abde", 0));
    assert!(asearch.find("abcde", 0));
    assert!(asearch.find("abccde", 0));
    assert!(asearch.find("abXXXXXXXde", 0));
    assert!(!asearch.find("abXXXXXXXd", 0));
}

#[test]
fn substitutions_are_counted() {
    let asearch = Asearch::new("abcde");
    assert!(!asearch.find("abXcde", 0));
    assert!(asearch.find("abXcde", 1));
    assert!(!asearch.find("abXXde", 1));
    assert!(asearch.find("abXXde", 2));
}

#[test]
fn length_mismatch_is_an_edit() {
    let asearch = Asearch::new("abcde");
    assert!(!asearch.find("abcd", 0));
    assert!(asearch.find("abcd", 1));
}

#[test]
fn ambiguity_is_clamped() {
    let patterns = ["abcde", "ab de", "漢字文字列", "a", ""];
    let texts = ["abcde", "abXXXde", "a", "", "x", "漢字", "zzzzzzz"];
    for p in patterns {
        let asearch = Asearch::new(p);
        for t in texts {
            assert_eq!(asearch.find(t, 255), asearch.find(t, 3));
            assert_eq!(asearch.find(t, 4), asearch.find(t, 3));
        }
    }
}

#[test]
fn empty_pattern_and_text() {
    let asearch = Asearch::new("");
    assert!(asearch.find("", 0));
    assert!(!asearch.find("", 1));
    assert!(!asearch.find("a", 0));
    let other = Asearch::new("abc");
    assert!(!other.find("", 3));
}

#[test]
fn text_beyond_the_table_matches_no_literal() {
    let asearch = Asearch::new("a");
    assert!(!asearch.find("😀", 0));
    assert!(asearch.find("😀", 1));
}

#[test]
fn pattern_of_full_width_never_matches() {
    let pattern = "abcdefghijklmnopqrstuvwxyzabcdef";
    let asearch = Asearch::new(pattern);
    assert!(!asearch.find(pattern, 0));
    assert!(!asearch.find(pattern, 3));
    let shorter = Asearch::new("abcdefghijklmnopqrstuvwxyzabcde");
    assert!(shorter.find("abcdefghijklmnopqrstuvwxyzabcde", 0));
}
