use sqlparse::letter::SqlLetter;
use sqlparse::letter_id::LetterId;

#[test]
fn test_matches() {
    // CREATE
    assert!(matches!(
        LetterId::Create.matches("BxbU0wVK", 0),
        Option::None
    ));
    assert!(matches!(
        LetterId::Create.matches("40b4868f81734907becreate479d2e911ffabe", 18),
        Option::Some(letter)
            if matches!(&letter, SqlLetter::Create(start, end, value)
                if *start == 18 && *end == 24 && value == "create")
    ));
    assert!(matches!(
        LetterId::Create.matches("sHQq#jUFCREATE7F0nRk1K", 8),
        Option::Some(letter)
            if matches!(&letter, SqlLetter::Create(start, end, value)
                if *start == 8 && *end == 14 && value == "CREATE")
    ));
    // TABLE
    assert!(matches!(
        LetterId::Table.matches("c56bcc83515c405883080b0fd456bdbe", 12),
        Option::None
    ));
    assert!(matches!(
        LetterId::Table.matches("ed270table09032974f8aa390f1523e5e935f", 5),
        Option::Some(letter)
            if matches!(&letter, SqlLetter::Table(start, end, value)
                if *start == 5 && *end == 10 && value == "table")
    ));
    assert!(matches!(
        LetterId::Table.matches("e252TABLEad73b68b4ef2a49f9aa30e6d4bf2", 4),
        Option::Some(letter)
            if matches!(&letter, SqlLetter::Table(start, end, value)
                if *start == 4 && *end == 9 && value == "TABLE")
    ));
    // ID
    assert!(matches!(LetterId::Id.matches("_Person", 0), Option::None));
    assert!(matches!(
        LetterId::Id.matches("Person_", 0),
        Option::Some(letter)
            if matches!(&letter, SqlLetter::Id(start, end, value)
                if *start == 0 && *end == 7 && value == "Person_")
    ));
    // SKIP
    assert!(matches!(
        LetterId::Skip.matches("e463d062", 0),
        Option::None
    ));
    assert!(matches!(
        LetterId::Skip.matches(" \t\r\n7c764d2d8ae1", 0),
        Option::Some(letter)
            if matches!(&letter, SqlLetter::Skip(start, end, value)
                if *start == 0 && *end == 4 && value == " \t\r\n")
    ));
}

#[test]
fn test_all_in_priority_order() {
    assert_eq!(
        LetterId::all(),
        vec![
            LetterId::Create,
            LetterId::Table,
            LetterId::Comma,
            LetterId::ParenL,
            LetterId::ParenR,
            LetterId::Id,
            LetterId::Skip,
        ]
    );
}

#[test]
fn test_letter_names() {
    assert_eq!(LetterId::Create.name(), "CREATE");
    assert_eq!(LetterId::Table.name(), "TABLE");
    assert_eq!(LetterId::Comma.name(), "COMMA");
    assert_eq!(LetterId::ParenL.name(), "LEFT PAREN");
    assert_eq!(LetterId::ParenR.name(), "RIGHT PAREN");
    assert_eq!(LetterId::Id.name(), "ID");
    assert_eq!(LetterId::Skip.name(), "SKIP");
}

#[test]
fn test_punctuation_tokens() {
    assert_eq!(
        LetterId::Comma.matches("a,b", 1),
        Some(SqlLetter::Comma(1, 2, ",".to_string()))
    );
    assert_eq!(
        LetterId::ParenL.matches("(x)", 0),
        Some(SqlLetter::ParenL(0, 1, "(".to_string()))
    );
    assert_eq!(
        LetterId::ParenR.matches("(x)", 2),
        Some(SqlLetter::ParenR(2, 3, ")".to_string()))
    );
    assert_eq!(LetterId::ParenR.matches("(x)", 3), None);
    assert_eq!(LetterId::Comma.matches("", 0), None);
}

#[test]
fn test_identifier_stops_at_first_other_character() {
    assert_eq!(
        LetterId::Id.matches("ab_9z-c", 0),
        Some(SqlLetter::Id(0, 5, "ab_9z".to_string()))
    );
    assert_eq!(LetterId::Id.matches("9ab", 0), None);
    assert_eq!(
        LetterId::Id.matches("9ab", 1),
        Some(SqlLetter::Id(1, 3, "ab".to_string()))
    );
}
