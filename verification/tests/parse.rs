use sqlparse::err::SqlErr;
use sqlparse::grammar::SqlGrammar;
use sqlparse::grammar_id::GrammarId;
use sqlparse::letter::SqlLetter;
use sqlparse::letter_id::LetterId;
use sqlparse::parse::{parse, parse_letter, parse_letters};

#[test]
fn test_parse_letters_create_table() {
    let s = r"
        CREATE TABLE Person(
            PersonID int,
            LastName varchar,
            FirstName varchar,
            Address varchar,
            City varchar
        )";
    match parse_letters(s) {
        Ok(letters) => {
            let assert_letter =
                |i: usize, id: &LetterId, assert: &dyn Fn(&SqlLetter)| match letters.get(i) {
                    Some(letter) => {
                        assert!(letter.is(id), "{} no match", id.name());
                        assert(letter);
                    }
                    None => panic!("{} no match", id.name()),
                };
            let assert_skip = |i: usize| assert_letter(i, &LetterId::Skip, &|_| {});
            let assert_letter_range = |i: usize, id: &LetterId, txt: &str| {
                assert_letter(i, id, &|letter: &SqlLetter| {
                    assert_eq!(&s[letter.start()..letter.end()], txt, "{} no match", txt);
                })
            };

            assert_eq!(letters.len(), 33);
            assert_skip(0);
            assert_letter_range(1, &LetterId::Create, "CREATE");
            assert_skip(2);
            assert_letter_range(3, &LetterId::Table, "TABLE");
            assert_skip(4);
            assert_letter_range(5, &LetterId::Id, "Person");
            assert_letter_range(6, &LetterId::ParenL, "(");
            assert_skip(7);
            assert_letter_range(8, &LetterId::Id, "PersonID");
            assert_skip(9);
            assert_letter_range(10, &LetterId::Id, "int");
            assert_letter_range(11, &LetterId::Comma, ",");
            assert_skip(12);
            assert_letter_range(13, &LetterId::Id, "LastName");
            assert_skip(14);
            assert_letter_range(15, &LetterId::Id, "varchar");
            assert_letter_range(16, &LetterId::Comma, ",");
            assert_skip(17);
            assert_letter_range(18, &LetterId::Id, "FirstName");
            assert_skip(19);
            assert_letter_range(20, &LetterId::Id, "varchar");
            assert_letter_range(21, &LetterId::Comma, ",");
            assert_skip(22);
            assert_letter_range(23, &LetterId::Id, "Address");
            assert_skip(24);
            assert_letter_range(25, &LetterId::Id, "varchar");
            assert_letter_range(26, &LetterId::Comma, ",");
            assert_skip(27);
            assert_letter_range(28, &LetterId::Id, "City");
            assert_skip(29);
            assert_letter_range(30, &LetterId::Id, "varchar");
            assert_skip(31);
            assert_letter_range(32, &LetterId::ParenR, ")");
        }
        Err(err) => panic!("Error: {}", err.msg(s)),
    }
}

#[test]
fn test_parse_create_table() {
    let s = r"
        CREATE TABLE Person(
            PersonID int,
            LastName varchar,
            FirstName varchar,
            Address varchar,
            City varchar
        )";
    match parse(s) {
        Ok(grammar) => match grammar {
            SqlGrammar::CreateTableStmt(_, _, stmt) => {
                assert_eq!(stmt.name.value, "Person");
                assert_eq!(stmt.columns.len(), 5);
                let mut iter = stmt.columns.iter();
                match iter.next() {
                    Some(col) => {
                        assert_eq!(col.name.value, "PersonID");
                        assert_eq!(col.data_type.value, "int");
                    }
                    None => panic!("columns length, expected: 5, actual: 0"),
                }
                match iter.next() {
                    Some(col) => {
                        assert_eq!(col.name.value, "LastName");
                        assert_eq!(col.data_type.value, "varchar");
                    }
                    None => panic!("columns length, expected: 5, actual: 1"),
                }
                match iter.next() {
                    Some(col) => {
                        assert_eq!(col.name.value, "FirstName");
                        assert_eq!(col.data_type.value, "varchar");
                    }
                    None => panic!("columns length, expected: 5, actual: 2"),
                }
                match iter.next() {
                    Some(col) => {
                        assert_eq!(col.name.value, "Address");
                        assert_eq!(col.data_type.value, "varchar");
                    }
                    None => panic!("columns length, expected: 5, actual: 3"),
                }
                match iter.next() {
                    Some(col) => {
                        assert_eq!(col.name.value, "City");
                        assert_eq!(col.data_type.value, "varchar");
                    }
                    None => panic!("columns length, expected: 5, actual: 4"),
                }
            }
            _ => panic!(
                "root grammar, expected: {}, actual: {}",
                GrammarId::CreateTableStmt.name(),
                GrammarId::from(grammar).name()
            ),
        },
        Err(err) => panic!("Error: {}", err.msg(s)),
    }
}

fn columns_of(grammar: &SqlGrammar) -> Vec<(String, String)> {
    match grammar {
        SqlGrammar::CreateTableStmt(_, _, stmt) => stmt
            .columns
            .iter()
            .map(|col| (col.name.value.clone(), col.data_type.value.clone()))
            .collect(),
        _ => panic!("no create table statement"),
    }
}

#[test]
fn test_parse_two_columns() {
    let s = "CREATE TABLE Person(PersonID int, LastName varchar)";
    match parse(s) {
        Ok(grammar) => {
            assert_eq!(
                columns_of(&grammar),
                vec![
                    ("PersonID".to_string(), "int".to_string()),
                    ("LastName".to_string(), "varchar".to_string()),
                ]
            );
            match grammar {
                SqlGrammar::CreateTableStmt(start, end, stmt) => {
                    assert_eq!(stmt.name.value, "Person");
                    assert_eq!(start, 0);
                    assert_eq!(end, 51);
                }
                _ => panic!("no create table statement"),
            }
        }
        Err(err) => panic!("Error: {}", err.msg(s)),
    }
}

#[test]
fn test_parse_one_column_any_case() {
    let s = "create\tTable t ( a b )";
    match parse(s) {
        Ok(grammar) => {
            assert_eq!(columns_of(&grammar), vec![("a".to_string(), "b".to_string())]);
        }
        Err(err) => panic!("Error: {}", err.msg(s)),
    }
}

#[test]
fn test_parse_unterminated() {
    let s = "CREATE TABLE Person(PersonID int";
    match parse(s) {
        Err(err) => {
            assert_eq!(err, SqlErr::Miss(32, "RIGHT PAREN".to_string()));
            assert_eq!(err.msg(s), "Missing 'RIGHT PAREN' at 1, 33");
        }
        Ok(_) => panic!("parsed an unterminated statement"),
    }
}

#[test]
fn test_parse_missing_table() {
    let s = "CREATE Person(x int)";
    match parse(s) {
        Err(err) => {
            assert_eq!(err, SqlErr::Miss(6, "TABLE".to_string()));
            assert_eq!(err.msg(s), "Missing 'TABLE' at 1, 7");
        }
        Ok(_) => panic!("parsed a statement without TABLE"),
    }
}

#[test]
fn test_parse_empty() {
    match parse("") {
        Err(err) => {
            assert_eq!(err, SqlErr::Miss(0, "CREATE".to_string()));
            assert_eq!(err.msg(""), "Missing 'CREATE' at 1, 1");
        }
        Ok(_) => panic!("parsed the empty text"),
    }
}

#[test]
fn test_parse_column_without_data_type() {
    match parse("CREATE TABLE T(x)") {
        Err(err) => assert_eq!(err, SqlErr::Miss(16, "ID".to_string())),
        Ok(_) => panic!("parsed a column without a data type"),
    }
}

#[test]
fn test_parse_no_columns() {
    match parse("CREATE TABLE T()") {
        Err(err) => assert_eq!(err, SqlErr::Miss(15, "ID".to_string())),
        Ok(_) => panic!("parsed a table without columns"),
    }
}

#[test]
fn test_parse_trailing_comma() {
    match parse("CREATE TABLE T(x int,)") {
        Err(err) => assert_eq!(err, SqlErr::Miss(21, "ID".to_string())),
        Ok(_) => panic!("parsed a trailing comma"),
    }
}

#[test]
fn test_parse_trailing_tokens() {
    let s = "CREATE TABLE T(x int) y";
    match parse(s) {
        Err(err) => {
            assert_eq!(err, SqlErr::Syntax(21));
            assert_eq!(err.msg(s), "Syntax error at 1, 22");
        }
        Ok(_) => panic!("parsed trailing tokens"),
    }
}

#[test]
fn test_parse_trailing_white_space_is_fine() {
    assert!(parse("CREATE TABLE T(x int) \n").is_ok());
}

#[test]
fn test_parse_unknown_character() {
    let s = "CREATE TABLE T(x int);";
    match parse(s) {
        Err(err) => {
            assert_eq!(err, SqlErr::Syntax(21));
        }
        Ok(_) => panic!("parsed an unknown character"),
    }
    match parse_letters("ab\n  ?") {
        Err(err) => {
            assert_eq!(err, SqlErr::Syntax(5));
            assert_eq!(err.msg("ab\n  ?"), "Syntax error at 2, 3");
        }
        Ok(_) => panic!("read an unknown character"),
    }
    assert_eq!(parse_letters("\u{e9}"), Err(SqlErr::Syntax(0)));
}

#[test]
fn test_keyword_wins_over_identifier() {
    assert_eq!(
        parse_letter("CREATE", 0),
        Some(SqlLetter::Create(0, 6, "CREATE".to_string()))
    );
    assert_eq!(
        LetterId::Id.matches("CREATE", 0),
        Some(SqlLetter::Id(0, 6, "CREATE".to_string()))
    );
    assert_eq!(
        parse_letters("CREATE"),
        Ok(vec![SqlLetter::Create(0, 6, "CREATE".to_string())])
    );
    assert_eq!(
        parse_letter("table_", 0),
        Some(SqlLetter::Table(0, 5, "table".to_string()))
    );
    assert_eq!(
        parse_letter("tabl", 0),
        Some(SqlLetter::Id(0, 4, "tabl".to_string()))
    );
}

#[test]
fn test_parse_letter_at_offsets() {
    assert_eq!(
        parse_letter("a, b", 1),
        Some(SqlLetter::Comma(1, 2, ",".to_string()))
    );
    assert_eq!(
        parse_letter("a, b", 2),
        Some(SqlLetter::Skip(2, 3, " ".to_string()))
    );
    assert_eq!(parse_letter("a, b", 4), None);
    assert_eq!(parse_letter("a;", 1), None);
}

#[test]
fn test_parse_letters_tile_the_text() {
    let s = "a ,(\t\n)b1";
    let letters = parse_letters(s).unwrap();
    assert_eq!(
        letters,
        vec![
            SqlLetter::Id(0, 1, "a".to_string()),
            SqlLetter::Skip(1, 2, " ".to_string()),
            SqlLetter::Comma(2, 3, ",".to_string()),
            SqlLetter::ParenL(3, 4, "(".to_string()),
            SqlLetter::Skip(4, 6, "\t\n".to_string()),
            SqlLetter::ParenR(6, 7, ")".to_string()),
            SqlLetter::Id(7, 9, "b1".to_string()),
        ]
    );
    assert_eq!(parse_letters(""), Ok(vec![]));
}
