use tagcore::string_pattern::{
    matches_any, parse_string_pattern, GlobPattern, PatternSyntaxError, StringPattern,
};

#[test]
fn bare_text_is_an_exact_pattern() {
    let pattern = parse_string_pattern("v1").unwrap();
    assert_eq!(pattern, StringPattern::Exact("v1".to_string()));
    assert!(pattern.is_exact());
    assert_eq!(pattern.as_str(), "v1");
    assert!(pattern.matches("v1"));
    assert!(!pattern.matches("v2"));
    assert!(!pattern.matches("v10"));
    assert!(!pattern.matches("v"));
    assert!(!pattern.matches("V1"));
    assert!(!pattern.matches(""));
}

#[test]
fn exact_pattern_takes_wildcards_literally() {
    let pattern = parse_string_pattern("v*").unwrap();
    assert!(pattern.is_exact());
    assert!(pattern.matches("v*"));
    assert!(!pattern.matches("v1"));
    let question = StringPattern::exact("v?");
    assert!(question.matches("v?"));
    assert!(!question.matches("v1"));
}

#[test]
fn empty_text_is_the_exact_pattern_of_the_empty_name() {
    let pattern = parse_string_pattern("").unwrap();
    assert_eq!(pattern, StringPattern::Exact(String::new()));
    assert!(pattern.matches(""));
    assert!(!pattern.matches("a"));
}

#[test]
fn exact_prefix_names_an_exact_pattern() {
    let pattern = parse_string_pattern("exact:v*").unwrap();
    assert_eq!(pattern, StringPattern::Exact("v*".to_string()));
    assert!(pattern.matches("v*"));
    assert!(!pattern.matches("v1"));
}

#[test]
fn glob_prefix_names_a_glob() {
    let pattern = parse_string_pattern("glob:v*").unwrap();
    assert!(!pattern.is_exact());
    assert_eq!(pattern.as_str(), "v*");
    assert_eq!(pattern, StringPattern::glob("v*").unwrap());
    assert!(pattern.matches("v1"));
    assert!(pattern.matches("v2"));
    assert!(pattern.matches("v"));
    assert!(pattern.matches("v1.0-rc"));
    assert!(!pattern.matches("release"));
    assert!(!pattern.matches("av1"));
}

#[test]
fn star_matches_any_run_and_question_mark_one_character() {
    let star = StringPattern::glob("a*c").unwrap();
    assert!(star.matches("ac"));
    assert!(star.matches("abc"));
    assert!(star.matches("abbbc"));
    assert!(!star.matches("ab"));
    let one = StringPattern::glob("v?").unwrap();
    assert!(one.matches("v1"));
    assert!(one.matches("vé"));
    assert!(!one.matches("v"));
    assert!(!one.matches("v10"));
    let all = StringPattern::glob("*").unwrap();
    assert!(all.matches(""));
    assert!(all.matches("anything/at.all"));
}

#[test]
fn glob_matching_is_case_sensitive() {
    let pattern = StringPattern::glob("Rel*").unwrap();
    assert!(pattern.matches("Release"));
    assert!(!pattern.matches("release"));
    assert!(!pattern.matches("RELEASE"));
}

#[test]
fn glob_without_wildcards_matches_its_own_text_only() {
    let pattern = StringPattern::glob("v1").unwrap();
    assert!(pattern.matches("v1"));
    assert!(!pattern.matches("v12"));
    assert!(!pattern.matches("v"));
    let empty = parse_string_pattern("glob:").unwrap();
    assert_eq!(empty.as_str(), "");
    assert!(empty.matches(""));
    assert!(!empty.matches("a"));
}

#[test]
fn glob_character_classes() {
    let pattern = StringPattern::glob("v[0-9]").unwrap();
    assert!(pattern.matches("v1"));
    assert!(!pattern.matches("va"));
    let negated = StringPattern::glob("v[!0-9]").unwrap();
    assert!(negated.matches("va"));
    assert!(!negated.matches("v1"));
}

#[test]
fn malformed_glob_is_refused_when_the_pattern_is_made() {
    let error = parse_string_pattern("glob:[").unwrap_err();
    assert_eq!(
        error,
        PatternSyntaxError::GlobPattern {
            pattern: "[".to_string(),
            reason: "Pattern syntax error near position 0: invalid range pattern".to_string(),
        }
    );
    assert_eq!(error.message(), "Pattern syntax error near position 0: invalid range pattern");
    assert!(StringPattern::glob("a[").is_err());
    assert!(GlobPattern::new("[").is_err());
}

#[test]
fn glob_with_too_many_stars_is_refused() {
    let error = StringPattern::glob("a***").unwrap_err();
    assert_eq!(
        error.message(),
        "Pattern syntax error near position 3: wildcards are either regular `*` or recursive `**`"
    );
    let recursive = StringPattern::glob("a**").unwrap_err();
    assert_eq!(
        recursive.message(),
        "Pattern syntax error near position 0: recursive wildcards must form a single path \
         component"
    );
}

#[test]
fn unknown_kind_is_refused() {
    let error = parse_string_pattern("regex:v.*").unwrap_err();
    assert_eq!(error, PatternSyntaxError::InvalidKind("regex".to_string()));
    assert_eq!(error.message(), "Invalid string pattern kind \"regex\"");
    assert_eq!(
        parse_string_pattern(":v1").unwrap_err(),
        PatternSyntaxError::InvalidKind(String::new())
    );
    assert_eq!(
        parse_string_pattern("Glob:v*").unwrap_err(),
        PatternSyntaxError::InvalidKind("Glob".to_string())
    );
    assert_eq!(
        StringPattern::from_str_kind("v1", "substring").unwrap_err(),
        PatternSyntaxError::InvalidKind("substring".to_string())
    );
}

#[test]
fn kind_ends_at_the_first_colon() {
    let pattern = parse_string_pattern("exact:a:b").unwrap();
    assert_eq!(pattern, StringPattern::Exact("a:b".to_string()));
    let glob = parse_string_pattern("glob:a:*").unwrap();
    assert_eq!(glob.as_str(), "a:*");
    assert!(glob.matches("a:b"));
    assert!(!glob.matches("ab"));
    let error = parse_string_pattern("é:glob:x").unwrap_err();
    assert_eq!(error, PatternSyntaxError::InvalidKind("é".to_string()));
    let after = parse_string_pattern("exact:日本:語").unwrap();
    assert_eq!(after.as_str(), "日本:語");
}

#[test]
fn from_str_kind_reads_both_kinds() {
    assert_eq!(
        StringPattern::from_str_kind("v*", "exact").unwrap(),
        StringPattern::Exact("v*".to_string())
    );
    let glob = StringPattern::from_str_kind("v*", "glob").unwrap();
    assert!(!glob.is_exact());
    assert!(glob.matches("v1"));
    assert!(StringPattern::from_str_kind("[", "glob").is_err());
    assert!(StringPattern::from_str_kind("[", "exact").is_ok());
}

#[test]
fn glob_pattern_keeps_its_text() {
    let glob = GlobPattern::new("v[12]*").unwrap();
    assert_eq!(glob.as_str(), "v[12]*");
    assert!(glob.matches("v1"));
    assert!(glob.matches("v2.5"));
    assert!(!glob.matches("v3"));
    let copy = glob.clone();
    assert_eq!(copy, glob);
}

#[test]
fn glob_answers_as_the_pattern_of_the_repository_library_does() {
    let patterns = ["*", "v*", "?", "v?", "*a*", "[a-c]*", "[!a-c]*", "a/**/b", "**", "v1", ""];
    let names = ["", "v", "v1", "v12", "a", "abc", "xay", "d", "a/b", "a/x/y/b", "V1", "é"];
    for text in patterns {
        let ours = StringPattern::glob(text).unwrap();
        let theirs = jj_lib::str_util::StringPattern::glob(text).unwrap();
        for name in names {
            assert_eq!(ours.matches(name), theirs.matches(name), "{text:?} on {name:?}");
        }
    }
}

#[test]
fn glob_is_refused_exactly_where_the_repository_library_refuses_it() {
    let texts = ["*", "**", "***", "a**", "**a", "[", "[]", "[a", "[a]", "[!", "[!a]", "]", "a/**/b"];
    for text in texts {
        let ours = StringPattern::glob(text);
        let theirs = jj_lib::str_util::StringPattern::glob(text);
        assert_eq!(ours.is_ok(), theirs.is_ok(), "{text:?}");
        if let (Err(ours), Err(theirs)) = (ours, theirs) {
            assert_eq!(ours.message(), theirs.to_string());
        }
    }
}

#[test]
fn empty_set_of_patterns_selects_every_name() {
    assert!(matches_any(&vec![], "anything"));
    assert!(matches_any(&vec![], ""));
}

#[test]
fn a_set_of_patterns_selects_what_one_of_them_matches() {
    let patterns = vec![
        parse_string_pattern("release").unwrap(),
        parse_string_pattern("glob:v*").unwrap(),
    ];
    assert!(matches_any(&patterns, "release"));
    assert!(matches_any(&patterns, "v1"));
    assert!(!matches_any(&patterns, "alpha"));
    assert!(!matches_any(&patterns, "releases"));
}

#[test]
fn pattern_clone_keeps_kind_and_text() {
    let exact = StringPattern::exact("v1");
    assert_eq!(exact.clone(), exact);
    let glob = StringPattern::glob("v*").unwrap();
    assert_eq!(glob.clone(), glob);
    assert_ne!(StringPattern::exact("v*"), glob);
}
