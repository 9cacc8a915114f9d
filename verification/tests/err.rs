use sqlparse::err::{to_decimal, SqlErr};

#[test]
fn test_loc_origin() {
    assert_eq!(SqlErr::loc("", 0), (1, 1));
    assert_eq!(SqlErr::loc("abc", 0), (1, 1));
    assert_eq!(SqlErr::loc("\n", 0), (1, 1));
}

#[test]
fn test_loc_after_newline() {
    assert_eq!(SqlErr::loc("ab\ncd", 2), (1, 3));
    assert_eq!(SqlErr::loc("ab\ncd", 3), (2, 1));
    assert_eq!(SqlErr::loc("ab\ncd", 4), (2, 2));
    assert_eq!(SqlErr::loc("\n\n\n", 3), (4, 1));
    assert_eq!(SqlErr::loc("a\r\nb", 3), (2, 1));
}

#[test]
fn test_loc_past_the_end() {
    assert_eq!(SqlErr::loc("ab\ncd", 5), (2, 3));
    assert_eq!(SqlErr::loc("ab\ncd", 99), (2, 3));
    assert_eq!(SqlErr::loc("", 7), (1, 1));
}

#[test]
fn test_loc_counts_characters() {
    assert_eq!(SqlErr::loc("\u{e9}\u{e9}\nx", 2), (1, 3));
    assert_eq!(SqlErr::loc("\u{e9}\u{e9}\nx", 4), (2, 2));
}

#[test]
fn test_msg() {
    assert_eq!(
        SqlErr::Miss(0, "CREATE".to_string()).msg(""),
        "Missing 'CREATE' at 1, 1"
    );
    assert_eq!(
        SqlErr::Miss(4, "ID".to_string()).msg("a\nbc\nd"),
        "Missing 'ID' at 2, 3"
    );
    assert_eq!(SqlErr::Syntax(5).msg("a\nbc\nd"), "Syntax error at 3, 1");
    assert_eq!(SqlErr::Syntax(2).msg("abc"), "Syntax error at 1, 3");
}

#[test]
fn test_msg_with_many_digits() {
    let mut s = String::new();
    for _ in 0..120 {
        s.push('\n');
    }
    for _ in 0..1005 {
        s.push('x');
    }
    assert_eq!(SqlErr::Syntax(1125).msg(&s), "Syntax error at 121, 1006");
    assert_eq!(SqlErr::Syntax(9).msg(&s), "Syntax error at 10, 1");
}

#[test]
fn test_loc_str() {
    assert_eq!(SqlErr::loc_str("Oops", "a\nb", 2), "Oops at 2, 1");
    assert_eq!(SqlErr::loc_str("", "", 0), " at 1, 1");
}

#[test]
fn test_to_decimal() {
    assert_eq!(to_decimal(0), "0");
    assert_eq!(to_decimal(7), "7");
    assert_eq!(to_decimal(10), "10");
    assert_eq!(to_decimal(99), "99");
    assert_eq!(to_decimal(100), "100");
    assert_eq!(to_decimal(1234567890), "1234567890");
    assert_eq!(to_decimal(usize::MAX), usize::MAX.to_string());
}

#[test]
fn test_err_clone() {
    let err = SqlErr::Miss(3, "ID".to_string());
    assert_eq!(err.clone(), err);
    assert_eq!(SqlErr::Syntax(3).clone(), SqlErr::Syntax(3));
}
