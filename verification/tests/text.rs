use tourney_ingest::text::{chars_of, copy_opt_text, matches_at, replace_all, same_text, text_contains};

#[test]
fn characters_of_a_text() {
    assert_eq!(chars_of("añb"), vec!['a', 'ñ', 'b']);
    assert_eq!(chars_of(""), Vec::<char>::new());
}

#[test]
fn optional_text_is_copied() {
    assert_eq!(copy_opt_text(&Some("x".to_string())), Some("x".to_string()));
    assert_eq!(copy_opt_text(&None), None);
}

#[test]
fn finds_text_inside_text() {
    assert!(text_contains("Winter Trial 2024", "Trial"));
    assert!(text_contains("Trial", "Trial"));
    assert!(text_contains("Trials", "Trial"));
    assert!(text_contains("The Trial", "Trial"));
    assert!(!text_contains("Winter trial", "Trial"));
    assert!(!text_contains("Tria", "Trial"));
    assert!(!text_contains("", "Trial"));
    assert!(!text_contains("TrTrialess", "Trials"));
    assert!(text_contains("TrTrial", "Trial"));
}

#[test]
fn empty_text_is_found_everywhere() {
    assert!(text_contains("abc", ""));
    assert!(text_contains("", ""));
}

#[test]
fn text_of_more_than_one_byte_per_character() {
    assert!(text_contains("año Trial ñ", "o Trial ñ"));
    assert!(!text_contains("año", "ano"));
}

#[test]
fn matching_at_a_position() {
    let hay = chars_of("abcabc");
    let pin = chars_of("bc");
    assert!(!matches_at(&hay, &pin, 0));
    assert!(matches_at(&hay, &pin, 1));
    assert!(matches_at(&hay, &pin, 4));
    assert!(matches_at(&hay, &Vec::new(), 6));
}

#[test]
fn same_texts() {
    assert!(same_text("year", "year"));
    assert!(!same_text("year", "years"));
    assert!(!same_text("year", "yeax"));
    assert!(same_text("", ""));
    assert!(!same_text("", "a"));
}

#[test]
fn replaces_every_occurrence() {
    assert_eq!(replace_all("Won in [year] and [year]", "[year]", "2023"), "Won in 2023 and 2023");
    assert_eq!(replace_all("[year]", "[year]", ""), "");
    assert_eq!(replace_all("no variable", "[year]", "2023"), "no variable");
    assert_eq!(replace_all("", "[year]", "2023"), "");
    assert_eq!(replace_all("ab", "abc", "x"), "ab");
}

#[test]
fn replaces_without_overlap_from_the_left() {
    assert_eq!(replace_all("aaa", "aa", "b"), "ba");
    assert_eq!(replace_all("aaaa", "aa", "b"), "bb");
    assert_eq!(replace_all("abab", "ab", "abab"), "abababab");
    assert_eq!(replace_all("xñyñ", "ñ", "n"), "xnyn");
}

#[test]
fn empty_pattern_replaces_nothing() {
    assert_eq!(replace_all("abc", "", "-"), "abc");
}
