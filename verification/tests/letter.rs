use sqlparse::letter::SqlLetter;
use sqlparse::letter_id::LetterId;

#[test]
fn test_from() {
    assert!(
        matches!(SqlLetter::from((LetterId::Create, 53..57, "CREATE")),
        SqlLetter::Create(start, end, value) if start == 53 && end == 57 && value == "CREATE")
    );
    assert!(matches!(SqlLetter::from((LetterId::Table, 0..24, "TABLE")),
        SqlLetter::Table(start, end, value) if start == 0 && end == 24 && value == "TABLE"));
    assert!(matches!(SqlLetter::from((LetterId::Comma, 48..55, ",")),
        SqlLetter::Comma(start, end, value) if start == 48 && end == 55 && value == ","));
    assert!(matches!(SqlLetter::from((LetterId::ParenL, 25..86, "(")),
        SqlLetter::ParenL(start, end, value) if start == 25 && end == 86 && value == "("));
    assert!(matches!(SqlLetter::from((LetterId::ParenR, 71..84, ")")),
        SqlLetter::ParenR(start, end, value) if start == 71 && end == 84 && value == ")"));
    assert!(matches!(SqlLetter::from((LetterId::Skip, 42..85, " ")),
        SqlLetter::Skip(start, end, value) if start == 42 && end == 85 && value == " "));
}

#[test]
fn test_from_id() {
    assert!(matches!(SqlLetter::from((LetterId::Id, 3..9, "Person")),
        SqlLetter::Id(start, end, value) if start == 3 && end == 9 && value == "Person"));
}

#[test]
fn test_letter_is_start_end() {
    let letter = SqlLetter::from((LetterId::Table, 7..12, "TABLE"));
    assert!(letter.is(&LetterId::Table));
    assert!(!letter.is(&LetterId::Create));
    assert!(!letter.is(&LetterId::Id));
    assert_eq!(letter.start(), 7);
    assert_eq!(letter.end(), 12);
    let range: std::ops::Range<usize> = letter.clone().into();
    assert_eq!(range, 7..12);
    assert_eq!(letter.clone(), letter);
}
