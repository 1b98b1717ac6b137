use otty_surface::search::RegexSearch;

#[test]
fn test_regex_search_new_creates_valid_regex() {
    let result = RegexSearch::new("test");
    assert!(result.is_ok());
}

#[test]
fn test_regex_search_new_with_uppercase() {
    let result = RegexSearch::new("Test");
    assert!(result.is_ok());
}

#[test]
fn test_regex_search_new_with_invalid_pattern() {
    let result = RegexSearch::new("[");
    assert!(result.is_err());
}

#[test]
fn regex_search_accepts_patterns_that_match_nothing_or_everything() {
    assert!(RegexSearch::new("").is_ok());
    assert!(RegexSearch::new("a*").is_ok());
    assert!(RegexSearch::new("(unclosed").is_err());
}
