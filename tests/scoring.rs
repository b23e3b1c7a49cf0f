use code_fuzzy_match::{fuzzy_match, FuzzyMatcher};

#[test]
fn empty_query_never_matches() {
    assert_eq!(fuzzy_match("anything", ""), None);
    assert_eq!(fuzzy_match("", ""), None);
    let mut matcher = FuzzyMatcher::new();
    assert_eq!(matcher.fuzzy_match("anything", ""), None);
}

#[test]
fn empty_target_never_matches() {
    assert_eq!(fuzzy_match("", "a"), None);
}

#[test]
fn query_out_of_order_does_not_match() {
    assert_eq!(fuzzy_match("abc", "cb"), None);
    assert_eq!(fuzzy_match("abc", "abcd"), None);
    assert_eq!(fuzzy_match("aa", "aaa"), None);
}

#[test]
fn single_character_exact_score() {
    // 1 base, 1 same case, 8 start of target, 2 end of target.
    assert_eq!(fuzzy_match("a", "a"), Some(12));
    // Case differs: no same-case point.
    assert_eq!(fuzzy_match("a", "A"), Some(11));
}

#[test]
fn contiguous_run_exact_score() {
    // 'a': 1 + 1 + 8 = 10; 'b': 1 + 5 (run of one) + 1 + 2 (end) = 9.
    assert_eq!(fuzzy_match("ab", "ab"), Some(19));
}

#[test]
fn separator_and_word_start_scores() {
    // A separator matched after the start: 1 + 1 + 4.
    assert_eq!(fuzzy_match("a-bc", "-"), Some(6));
    // A path separator matched by the other one: 1 + 5.
    assert_eq!(fuzzy_match("a/bc", "\\"), Some(6));
    // A word start after a separator, at the end: 1 + 1 + 2 + 2.
    assert_eq!(fuzzy_match("a b", "b"), Some(6));
    // Mid-word, at the end: 1 + 1 + 2.
    assert_eq!(fuzzy_match("ab", "b"), Some(4));
    // Camel case word start: 1 + 1 + 2, then 'c' at the end: 1 + 1 + 2.
    assert_eq!(fuzzy_match("aBc", "B"), Some(4));
}

#[test]
fn scores_are_positive() {
    let target = "The quick brown fox jumps over the lazy dog.";
    for query in ["T", "g", ".", "xz", "ee", "jmp the do", "dog."] {
        let score = fuzzy_match(target, query);
        assert!(score.is_some());
        assert!(score.unwrap() > 0);
    }
}

#[test]
fn exact_case_scores_higher() {
    let exact = fuzzy_match("The quick brown fox", "The").unwrap();
    let other = fuzzy_match("The quick brown fox", "the").unwrap();
    assert!(exact > other);
}

#[test]
fn word_start_scores_higher() {
    // 'f' after a space: 4, then runs of one and two: 7 and 12.
    assert_eq!(fuzzy_match("my files", "fil"), Some(23));
    // 'i' mid-word: 2, then the same runs.
    assert_eq!(fuzzy_match("my files", "ile"), Some(21));
}

#[test]
fn word_start_loses_to_a_longer_run() {
    // "wit" keeps the leading 'w' for its start bonus, which breaks its run;
    // "ith" runs over three characters.
    assert_eq!(fuzzy_match("words with spaces", "wit"), Some(19));
    assert_eq!(fuzzy_match("words with spaces", "ith"), Some(21));
}

#[test]
fn path_separators_are_interchangeable() {
    // The same path separator earns the same-case point as well.
    assert_eq!(fuzzy_match("/bin/ls", "/ls"), Some(21));
    assert_eq!(fuzzy_match("/bin/ls", "\\ls"), Some(20));
}

#[test]
fn non_ascii_letters_fold_case() {
    // Only a real lowercase mapping makes 'É' and 'é' agree: 1 + 8 + 2.
    assert_eq!(fuzzy_match("É", "é"), Some(11));
    assert_eq!(fuzzy_match("école", "ÉCOLE").is_some(), true);
}

#[test]
fn non_ascii_upper_case_starts_a_word() {
    // 'É' after a lower case letter is a word start: 1 + 2 + 2.
    assert_eq!(fuzzy_match("aÉ", "é"), Some(5));
    // 'é' is not: 1 + 1 (same case) + 2.
    assert_eq!(fuzzy_match("aé", "é"), Some(4));
}

#[test]
fn reused_matcher_agrees_with_fresh_matches() {
    let pairs: [(&str, &str); 8] = [
        ("The quick brown fox jumps over the lazy dog.", "fox"),
        ("/bin/ls", "\\ls"),
        ("short", "a much longer query"),
        ("", "x"),
        ("camelCaseWords", "Wor"),
        ("a", ""),
        ("words_with_underscores", "und"),
        ("The quick brown fox jumps over the lazy dog.", "jmp the do"),
    ];
    let mut matcher = FuzzyMatcher::new();
    for (target, query) in pairs {
        assert_eq!(matcher.fuzzy_match(target, query), fuzzy_match(target, query));
    }
    for (target, query) in pairs.iter().rev() {
        assert_eq!(matcher.fuzzy_match(target, query), fuzzy_match(target, query));
    }
}
