use code_fuzzy_match::fuzzy_match;

#[test]
fn test_match() {
    let result = fuzzy_match("The quick brown fox jumps over the lazy dog.", "fox");
    assert!(result.is_some());
    let result = fuzzy_match(
        "The quick brown fox jumps over the lazy dog.",
        "Quick fox jumps the dog",
    );
    assert!(result.is_some());
}

#[test]
fn test_no_match() {
    let result = fuzzy_match("The quick brown fox jumps over the lazy dog.", "cat");
    assert!(result.is_none());
    let result = fuzzy_match(
        "The quick brown fox jumps over the lazy dog.",
        "Quick fox jumps the cat",
    );
    assert!(result.is_none());
}

#[test]
fn test_ranking() {
    let target = "The quick brown fox jumps over the lazy dog.";
    let queries: [&str; 18] = [
        "fx",
        "fox",
        "jump",
        "JUMP",
        "The",
        "the",
        "fx over",
        "quick cat",
        "The quick",
        "the quick",
        "jump the dog",
        "jmp the do",
        "jmp the cat",
        "dog the fox",
        "het",
        "xz",
        "xx",
        "ee",
    ];

    let mut results = queries
        .iter()
        .map(|query| (*query, fuzzy_match(target, query)))
        .collect::<Vec<_>>();
    results.retain(|(_, result)| result.is_some());
    results.sort_by_key(|(_, result)| result.unwrap());

    assert_eq!(
        results.iter().map(|(query, _)| *query).collect::<Vec<_>>(),
        vec![
            "xz",
            "ee",
            "fx",
            "het",
            "fox",
            "the",
            "The",
            "JUMP",
            "jump",
            "fx over",
            "jmp the do",
            "jump the dog",
            "the quick",
            "The quick",
        ]
    );
}

#[test]
fn test_slash() {
    let result = fuzzy_match("/bin/ls", "/ls");
    assert!(result.is_some());
    let result = fuzzy_match("/bin/ls", "\\ls");
    assert!(result.is_some());
    let result = fuzzy_match("c:\\windows\\notepad.exe", "/windows");
    assert!(result.is_some());
    let result = fuzzy_match("c:\\windows\\notepad.exe", "\\windows");
    assert!(result.is_some());
}

#[test]
fn test_word_bonus() {
    let higher = fuzzy_match("words with spaces", "spa");
    let lower = fuzzy_match("words with spaces", "pac");
    assert!(higher.is_some());
    assert!(lower.is_some());
    assert!(
        higher.unwrap() > lower.unwrap(),
        "higher = {:?}, lower = {:?}",
        higher,
        lower
    );

    let higher = fuzzy_match("words_with_underscores", "und");
    let lower = fuzzy_match("words_with_underscores", "nde");
    assert!(higher.is_some());
    assert!(lower.is_some());
    assert!(
        higher.unwrap() > lower.unwrap(),
        "higher = {:?}, lower = {:?}",
        higher,
        lower
    );

    let higher = fuzzy_match("camelCaseWords", "Wor");
    let lower = fuzzy_match("camelCaseWords", "ord");
    assert!(higher.is_some());
    assert!(lower.is_some());
    assert!(
        higher.unwrap() > lower.unwrap(),
        "higher = {:?}, lower = {:?}",
        higher,
        lower
    );
}
