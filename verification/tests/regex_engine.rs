use helix_extensions::char_index::{ceil_char_boundary, ByteToChar};
use helix_extensions::regex_engine::{
    char_range_of, char_ranges, compile, find, find_all, full_match, pattern, replace_all,
};

#[test]
fn an_invalid_pattern_compiles_to_nothing() {
    assert!(compile("(".to_string()).is_none());
    assert!(compile("[a-".to_string()).is_none());
    assert!(compile("a{2,1}".to_string()).is_none());
    assert!(compile("[0-9]+".to_string()).is_some());
}

#[test]
fn the_pattern_text_survives_compilation() {
    let regex = compile("[a-z]+".to_string()).unwrap();
    assert_eq!(pattern(&regex), "[a-z]+");
}

#[test]
fn full_match_is_not_a_substring_search() {
    let regex = compile("a|ab".to_string()).unwrap();
    assert_eq!(find(&regex, "ab"), Some((0, 1)));
    assert!(full_match(&regex, "ab"));
    assert!(full_match(&regex, "a"));
    assert!(!full_match(&regex, "abc"));

    let digits = compile("[0-9]".to_string()).unwrap();
    assert!(find(&digits, "a1b").is_some());
    assert!(!full_match(&digits, "a1b"));
    assert!(full_match(&digits, "1"));
}

#[test]
fn offsets_are_character_indices() {
    let regex = compile("b".to_string()).unwrap();
    assert_eq!(find(&regex, "界ab"), Some((2, 3)));
    assert_eq!(find_all(&regex, "界b界b"), vec![(1, 2), (3, 4)]);
}

#[test]
fn find_all_returns_non_overlapping_matches_in_order() {
    let regex = compile("aa".to_string()).unwrap();
    assert_eq!(find_all(&regex, "aaaa"), vec![(0, 2), (2, 4)]);
}

#[test]
fn empty_matches_advance_rather_than_looping() {
    let regex = compile("x*".to_string()).unwrap();
    assert_eq!(find_all(&regex, "ab"), vec![(0, 0), (1, 1), (2, 2)]);
}

#[test]
fn a_pattern_that_never_matches_finds_nothing() {
    let regex = compile("zzz".to_string()).unwrap();
    assert!(find(&regex, "abc").is_none());
    assert!(find_all(&regex, "abc").is_empty());
}

#[test]
fn replacements_expand_captures() {
    let regex = compile("(\\w+)@(\\w+)".to_string()).unwrap();
    assert_eq!(replace_all(&regex, "a@b and c@d", "$2:$1"), "b:a and d:c");

    let named = compile("(?<word>[a-z]+)".to_string()).unwrap();
    assert_eq!(replace_all(&named, "hi there", "<${word}>"), "<hi> <there>");
}

#[test]
fn a_literal_replacement_is_inserted_verbatim() {
    let regex = compile("cat".to_string()).unwrap();
    assert_eq!(replace_all(&regex, "cat cat", "dog"), "dog dog");
}

#[test]
fn byte_to_char_walks_forward_across_calls() {
    let text = "界a界b";
    let mut converter = ByteToChar::new(text);
    assert_eq!(converter.convert(3), 1);
    assert_eq!(converter.convert(4), 2);
    assert_eq!(converter.convert(7), 3);
    assert_eq!(converter.convert(3), 1);
}

#[test]
fn given_byte_ranges_become_character_ranges() {
    assert_eq!(char_range_of("界ab", (3, 5)), (1, 3));
    assert_eq!(char_ranges("界b界b", &vec![(0, 3), (3, 4), (7, 8)]), vec![(0, 1), (1, 2), (3, 4)]);
    assert!(char_ranges("界b", &vec![]).is_empty());
}

#[test]
fn boundaries_are_rounded_up() {
    assert_eq!(ceil_char_boundary("界a", 0), 0);
    assert_eq!(ceil_char_boundary("界a", 1), 3);
    assert_eq!(ceil_char_boundary("界a", 3), 3);
    assert_eq!(ceil_char_boundary("界a", 99), 4);
}
