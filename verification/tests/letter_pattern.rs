use sqlparse::letter_id::LetterId;
use sqlparse::letter_pattern::LetterPattern;

#[test]
fn test_match_char() {
    assert_eq!(
        LetterPattern::Char('V').matches("08c9b5eb10e54984ae9cb3d60b975635", 7),
        (false, 7)
    );
    assert_eq!(
        LetterPattern::Char('2').matches("7173fe47cb154e2f81928345206ed946", 14),
        (true, 15)
    );
}

#[test]
fn test_match_chars() {
    let (mut matched, mut end) =
        LetterPattern::Chars(vec!['8', 'L', '0']).matches("OH$uISCX", 3);
    assert_eq!(
        matched, false,
        "match '%' '6' in 'OH$uISCX', match result, expected: false, actual: {}",
        matched
    );
    assert_eq!(
        end, 3,
        "match '%' '6' in 'OH$uISCX', end index, expected: 3, actual: {}",
        end
    );
    (matched, end) = LetterPattern::Chars(vec!['%', '6']).matches("EXtQ%6Ee", 4);
    assert_eq!(
        matched, true,
        "match '%' '6' in 'EXtQ%6Ee', match result, expected: true, actual: {}",
        matched
    );
    assert_eq!(
        end, 5,
        "match '%' '6' in 'EXtQ%6Ee', end index, expected: 5, actual: {}",
        end
    );
}

#[test]
fn test_match_str() {
    assert_eq!(
        LetterPattern::Str("bea".to_string()).matches("lFMZtYWd", 1),
        (false, 1)
    );
    assert_eq!(
        LetterPattern::Str("UryCk".to_string()).matches("bViUryCk42t4a", 3),
        (true, 8)
    );
    assert_eq!(
        LetterPattern::Str("*ghb^sq".to_string()).matches("*gHB^sq7", 7),
        (false, 7)
    );
    assert_eq!(
        LetterPattern::Str("UDZB".to_string()).matches("Hn4UDzB7", 3),
        (true, 7)
    );
}

#[test]
fn test_match_range() {
    // 0-9
    assert_eq!(
        LetterPattern::Range('0', '9').matches("114b1b588ce4492f94588f1b5063e2f0", 21),
        (false, 21)
    );
    assert_eq!(
        LetterPattern::Range('0', '9').matches("43eb282919914693ab923a3e0ec6af19", 18),
        (true, 19)
    );
    // a-z
    assert_eq!(
        LetterPattern::Range('a', 'z').matches("424f8459a1044258a3b5efb6d3c0eaae", 23),
        (false, 23)
    );
    assert_eq!(
        LetterPattern::Range('a', 'z').matches("c70373d04d1441f18239bd1595e08676", 14),
        (true, 15)
    );
    // A-Z
    assert_eq!(
        LetterPattern::Range('A', 'Z').matches("852CF46C5E1D46CBA773AE5659EA11C4", 8),
        (false, 8)
    );
    assert_eq!(
        LetterPattern::Range('A', 'Z').matches("53CEF0D9561140E4A42F2D3E0AF03658", 16),
        (true, 17)
    );
}

fn boxed(patterns: Vec<LetterPattern>) -> Vec<Box<LetterPattern>> {
    patterns.into_iter().map(Box::new).collect()
}

#[test]
fn test_char_ignores_case() {
    assert_eq!(LetterPattern::Char('a').matches("A", 0), (true, 1));
    assert_eq!(LetterPattern::Char('A').matches("a", 0), (true, 1));
    assert_eq!(LetterPattern::Char('a').matches("b", 0), (false, 0));
    assert_eq!(LetterPattern::Char('\u{e9}').matches("\u{c9}", 0), (true, 1));
}

#[test]
fn test_char_compares_first_lowercase_character() {
    // U+0130 maps to 'i' followed by a combining dot
    assert_eq!(LetterPattern::Char('i').matches("\u{130}", 0), (true, 1));
    assert_eq!(LetterPattern::Char('\u{130}').matches("I", 0), (true, 1));
}

#[test]
fn test_offsets_count_characters() {
    assert_eq!(LetterPattern::Char('b').matches("\u{e9}b", 1), (true, 2));
    assert_eq!(LetterPattern::Str("bc".to_string()).matches("\u{e9}bc", 1), (true, 3));
}

#[test]
fn test_chars_ignores_case_and_range_does_not() {
    assert_eq!(LetterPattern::Chars(vec!['x', 'Y']).matches("y", 0), (true, 1));
    assert_eq!(LetterPattern::Chars(vec![]).matches("y", 0), (false, 0));
    assert_eq!(LetterPattern::Range('a', 'z').matches("Q", 0), (false, 0));
    assert_eq!(LetterPattern::Range('a', 'z').matches("a", 0), (true, 1));
    assert_eq!(LetterPattern::Range('a', 'z').matches("z", 0), (true, 1));
    assert_eq!(LetterPattern::Range('b', 'y').matches("z", 0), (false, 0));
}

#[test]
fn test_past_the_end_is_a_failed_match() {
    assert_eq!(LetterPattern::Char('a').matches("abc", 3), (false, 3));
    assert_eq!(LetterPattern::Char('a').matches("abc", 10), (false, 10));
    assert_eq!(LetterPattern::Char('a').matches("", 0), (false, 0));
    assert_eq!(LetterPattern::Chars(vec!['a']).matches("a", 1), (false, 1));
    assert_eq!(LetterPattern::Range('a', 'z').matches("a", 7), (false, 7));
    assert_eq!(LetterPattern::Str("a".to_string()).matches("a", 1), (false, 1));
}

#[test]
fn test_str_is_atomic() {
    assert_eq!(
        LetterPattern::Str("CREATE".to_string()).matches("CREATx", 0),
        (false, 0)
    );
    assert_eq!(
        LetterPattern::Str("CREATE".to_string()).matches("xxCREAT", 2),
        (false, 2)
    );
    assert_eq!(
        LetterPattern::Str("CREATE".to_string()).matches("xxCREATE", 2),
        (true, 8)
    );
}

#[test]
fn test_empty_str_matches_everywhere() {
    assert_eq!(LetterPattern::Str(String::new()).matches("abc", 1), (true, 1));
    assert_eq!(LetterPattern::Str(String::new()).matches("abc", 3), (true, 3));
    assert_eq!(LetterPattern::Str(String::new()).matches("abc", 9), (true, 9));
}

#[test]
fn test_and_rolls_back_to_its_start() {
    let pattern = LetterPattern::And(boxed(vec![
        LetterPattern::Char('a'),
        LetterPattern::Char('b'),
        LetterPattern::Char('c'),
    ]));
    assert_eq!(pattern.matches("xabc", 1), (true, 4));
    assert_eq!(pattern.matches("xabd", 1), (false, 1));
    assert_eq!(pattern.matches("xab", 1), (false, 1));
    assert_eq!(LetterPattern::And(vec![]).matches("x", 0), (true, 0));
}

#[test]
fn test_or_takes_the_first_that_matches() {
    let pattern = LetterPattern::Or(boxed(vec![
        LetterPattern::Str("ab".to_string()),
        LetterPattern::Str("abc".to_string()),
        LetterPattern::Char('x'),
    ]));
    assert_eq!(pattern.matches("abc", 0), (true, 2));
    assert_eq!(pattern.matches("x", 0), (true, 1));
    assert_eq!(pattern.matches("b", 0), (false, 0));
    assert_eq!(LetterPattern::Or(vec![]).matches("x", 0), (false, 0));
}

#[test]
fn test_any_never_fails() {
    let pattern = LetterPattern::Any(Box::new(LetterPattern::Char('a')));
    assert_eq!(pattern.matches("aaab", 0), (true, 3));
    assert_eq!(pattern.matches("aaab", 3), (true, 3));
    assert_eq!(pattern.matches("aaab", 4), (true, 4));
    assert_eq!(pattern.matches("aaab", 9), (true, 9));
    assert_eq!(pattern.matches("aaa", 1), (true, 3));
}

#[test]
fn test_more_needs_one_match() {
    let pattern = LetterPattern::More(Box::new(LetterPattern::Range('0', '9')));
    assert_eq!(pattern.matches("x123y", 1), (true, 4));
    assert_eq!(pattern.matches("x123y", 3), (true, 4));
    assert_eq!(pattern.matches("x123y", 0), (false, 0));
    assert_eq!(pattern.matches("x123y", 4), (false, 4));
    assert_eq!(pattern.matches("x123y", 5), (false, 5));
}

#[test]
fn test_pattern_of_each_letter() {
    assert_eq!(
        LetterPattern::from(LetterId::Create),
        LetterPattern::Str("CREATE".to_string())
    );
    assert_eq!(
        LetterPattern::from(LetterId::Table),
        LetterPattern::Str("TABLE".to_string())
    );
    assert_eq!(LetterPattern::from(LetterId::Comma), LetterPattern::Char(','));
    assert_eq!(LetterPattern::from(LetterId::ParenL), LetterPattern::Char('('));
    assert_eq!(LetterPattern::from(LetterId::ParenR), LetterPattern::Char(')'));
    assert_eq!(
        LetterPattern::from(LetterId::Id),
        LetterPattern::And(boxed(vec![
            LetterPattern::Or(boxed(vec![
                LetterPattern::Range('a', 'z'),
                LetterPattern::Range('A', 'Z'),
            ])),
            LetterPattern::Any(Box::new(LetterPattern::Or(boxed(vec![
                LetterPattern::Range('a', 'z'),
                LetterPattern::Range('A', 'Z'),
                LetterPattern::Range('0', '9'),
                LetterPattern::Char('_'),
            ])))),
        ]))
    );
    assert_eq!(
        LetterPattern::from(LetterId::Skip),
        LetterPattern::More(Box::new(LetterPattern::Chars(vec![' ', '\t', '\r', '\n'])))
    );
}

#[test]
fn test_nullable_patterns() {
    assert!(!LetterPattern::Char('a').nullable());
    assert!(!LetterPattern::Chars(vec![]).nullable());
    assert!(!LetterPattern::Range('a', 'b').nullable());
    assert!(LetterPattern::Str(String::new()).nullable());
    assert!(!LetterPattern::Str("a".to_string()).nullable());
    assert!(LetterPattern::And(vec![]).nullable());
    assert!(!LetterPattern::Or(vec![]).nullable());
    assert!(LetterPattern::Any(Box::new(LetterPattern::Char('a'))).nullable());
    assert!(!LetterPattern::More(Box::new(LetterPattern::Char('a'))).nullable());
    assert!(LetterPattern::More(Box::new(LetterPattern::Str(String::new()))).nullable());
    assert!(!LetterPattern::And(boxed(vec![
        LetterPattern::Str(String::new()),
        LetterPattern::Char('a'),
    ]))
    .nullable());
    assert!(LetterPattern::Or(boxed(vec![
        LetterPattern::Char('a'),
        LetterPattern::Str(String::new()),
    ]))
    .nullable());
}

#[test]
fn test_productive_patterns() {
    for id in LetterId::all() {
        assert!(LetterPattern::from(id).productive());
        assert!(!LetterPattern::from(id).nullable());
    }
    assert!(LetterPattern::Str(String::new()).productive());
    assert!(!LetterPattern::Any(Box::new(LetterPattern::Str(String::new()))).productive());
    assert!(!LetterPattern::More(Box::new(LetterPattern::And(vec![]))).productive());
    let twice = LetterPattern::Any(Box::new(LetterPattern::Any(Box::new(
        LetterPattern::Char('a'),
    ))));
    assert!(!twice.productive());
    assert!(!LetterPattern::And(boxed(vec![LetterPattern::Char('a'), twice.clone()])).productive());
    assert!(!LetterPattern::Or(boxed(vec![twice, LetterPattern::Char('a')])).productive());
    assert!(LetterPattern::Any(Box::new(LetterPattern::More(Box::new(
        LetterPattern::Char('a'),
    ))))
    .productive());
}

#[test]
fn test_repetition_ends_on_a_match_that_consumes_nothing() {
    let empty = LetterPattern::Any(Box::new(LetterPattern::Str(String::new())));
    assert_eq!(empty.matches("abc", 0), (true, 0));
    assert_eq!(empty.matches("abc", 3), (true, 3));
    let twice = LetterPattern::Any(Box::new(LetterPattern::Any(Box::new(
        LetterPattern::Char('a'),
    ))));
    assert_eq!(twice.matches("aab", 0), (true, 2));
    assert_eq!(twice.matches("aab", 2), (true, 2));
    let more = LetterPattern::More(Box::new(LetterPattern::Str(String::new())));
    assert_eq!(more.matches("abc", 1), (true, 1));
    let either = LetterPattern::Any(Box::new(LetterPattern::Or(boxed(vec![
        LetterPattern::Char('a'),
        LetterPattern::Str(String::new()),
    ]))));
    assert_eq!(either.matches("aab", 0), (true, 2));
}

#[test]
fn test_pattern_clone() {
    for id in LetterId::all() {
        let pattern = LetterPattern::from(id);
        assert_eq!(pattern.clone(), pattern);
    }
}
