use sqlparse::clause::ColumnClause;
use sqlparse::err::SqlErr;
use sqlparse::expr::IdExpr;
use sqlparse::grammar::SqlGrammar;
use sqlparse::grammar_id::GrammarId;
use sqlparse::grammar_pattern::GrammarPattern;
use sqlparse::letter::SqlLetter;
use sqlparse::letter_id::LetterId;
use sqlparse::stmt::{CreateTableStmt, Stmt};
use sqlparse::syntax::SyntaxNode;

fn id(start: usize, end: usize, text: &str) -> SqlLetter {
    SqlLetter::Id(start, end, text.to_string())
}

fn id_node(start: usize, end: usize, text: &str) -> SqlGrammar {
    SqlGrammar::IdExpr(start, end, IdExpr { value: text.to_string() })
}

fn comma(start: usize) -> SqlLetter {
    SqlLetter::Comma(start, start + 1, ",".to_string())
}

#[test]
fn test_grammar_names() {
    assert_eq!(GrammarId::Letter.name(), "Letter");
    assert_eq!(GrammarId::Vec.name(), "Vector");
    assert_eq!(GrammarId::CreateTableStmt.name(), "Create Table Statement");
    assert_eq!(GrammarId::ColumnClause.name(), "Column Clause");
    assert_eq!(GrammarId::IdExpr.name(), "Identity Expression");
}

#[test]
fn test_grammar_is_and_kind() {
    let node = id_node(1, 2, "x");
    assert!(node.is(&GrammarId::IdExpr));
    assert!(!node.is(&GrammarId::Letter));
    assert_eq!(GrammarId::from(node), GrammarId::IdExpr);
    let seq = SqlGrammar::Vec(0, 0, vec![]);
    assert!(seq.is(&GrammarId::Vec));
    assert_eq!(GrammarId::from(seq), GrammarId::Vec);
    let letter = SqlGrammar::Letter(0, 1, comma(0));
    assert!(letter.is(&GrammarId::Letter));
    assert_eq!(GrammarId::from(letter), GrammarId::Letter);
}

#[test]
fn test_grammar_range() {
    let node = id_node(4, 9, "hello");
    assert_eq!(node.start(), 4);
    assert_eq!(node.end(), 9);
    let range: std::ops::Range<usize> = node.into();
    assert_eq!(range, 4..9);
}

#[test]
fn test_promotion_of_letters() {
    assert_eq!(SqlGrammar::from(id(3, 5, "ab")), id_node(3, 5, "ab"));
    assert_eq!(
        SqlGrammar::from(comma(3)),
        SqlGrammar::Letter(3, 4, comma(3))
    );
}

#[test]
fn test_payload_of_nodes() {
    let name: Option<IdExpr> = id_node(0, 1, "a").into();
    assert_eq!(name, Some(IdExpr { value: "a".to_string() }));
    let none: Option<IdExpr> = SqlGrammar::Vec(0, 0, vec![]).into();
    assert_eq!(none, None);
    let column = ColumnClause {
        name: IdExpr { value: "a".to_string() },
        data_type: IdExpr { value: "int".to_string() },
    };
    let found: Option<ColumnClause> = SqlGrammar::ColumnClause(0, 5, column.clone()).into();
    assert_eq!(found, Some(column));
    let none: Option<ColumnClause> = id_node(0, 1, "a").into();
    assert_eq!(none, None);
}

#[test]
fn test_collect() {
    let a = id_node(0, 1, "a");
    let b = SqlGrammar::Letter(1, 2, comma(1));
    assert_eq!(a.collect(), vec![a.clone()]);
    let seq = SqlGrammar::Vec(0, 2, vec![a.clone(), b.clone()]);
    assert_eq!(seq.collect(), vec![a, b]);
    assert_eq!(seq.clone(), seq);
}

#[test]
fn test_reduce_letter_keeps_the_node() {
    let node = id_node(0, 1, "a");
    assert_eq!(SqlGrammar::reduce(GrammarId::Letter, node.clone()), node);
}

#[test]
fn test_reduce_sequence_splices_one_level() {
    let a = id_node(0, 1, "a");
    let b = SqlGrammar::Letter(1, 2, comma(1));
    let c = id_node(2, 3, "c");
    let d = id_node(3, 4, "d");
    let nested = SqlGrammar::Vec(
        0,
        4,
        vec![
            a.clone(),
            SqlGrammar::Vec(1, 3, vec![b.clone(), c.clone()]),
            SqlGrammar::Vec(3, 3, vec![]),
            d.clone(),
        ],
    );
    assert_eq!(
        SqlGrammar::reduce(GrammarId::Vec, nested),
        SqlGrammar::Vec(0, 4, vec![a.clone(), b, c, d])
    );
    assert_eq!(
        SqlGrammar::reduce(GrammarId::Vec, a.clone()),
        SqlGrammar::Vec(0, 1, vec![a])
    );
}

#[test]
fn test_reduce_column_takes_the_first_two_identifiers() {
    let nodes = SqlGrammar::Vec(
        2,
        9,
        vec![
            SqlGrammar::Letter(2, 3, comma(2)),
            id_node(3, 4, "a"),
            id_node(5, 6, "b"),
            id_node(7, 9, "cc"),
        ],
    );
    assert_eq!(
        SqlGrammar::reduce(GrammarId::ColumnClause, nodes),
        SqlGrammar::ColumnClause(
            2,
            9,
            ColumnClause {
                name: IdExpr { value: "a".to_string() },
                data_type: IdExpr { value: "b".to_string() },
            }
        )
    );
}

#[test]
fn test_reduce_table_takes_first_identifier_and_all_columns() {
    let column = |name: &str, data_type: &str| ColumnClause {
        name: IdExpr { value: name.to_string() },
        data_type: IdExpr { value: data_type.to_string() },
    };
    let nodes = SqlGrammar::Vec(
        0,
        30,
        vec![
            SqlGrammar::ColumnClause(0, 5, column("x", "int")),
            id_node(6, 7, "T"),
            SqlGrammar::Letter(7, 8, comma(7)),
            id_node(9, 10, "U"),
            SqlGrammar::ColumnClause(11, 20, column("y", "text")),
        ],
    );
    assert_eq!(
        SqlGrammar::reduce(GrammarId::CreateTableStmt, nodes),
        SqlGrammar::CreateTableStmt(
            0,
            30,
            CreateTableStmt {
                name: IdExpr { value: "T".to_string() },
                columns: vec![column("x", "int"), column("y", "text")],
            }
        )
    );
    assert_eq!(
        SqlGrammar::reduce(GrammarId::CreateTableStmt, id_node(1, 2, "T")),
        SqlGrammar::CreateTableStmt(
            1,
            2,
            CreateTableStmt { name: IdExpr { value: "T".to_string() }, columns: vec![] }
        )
    );
}

#[test]
fn test_reduce_identifier_promotes_the_letter() {
    assert_eq!(
        SqlGrammar::reduce(GrammarId::IdExpr, SqlGrammar::Letter(0, 9, id(4, 9, "hello"))),
        id_node(4, 9, "hello")
    );
    assert_eq!(
        SqlGrammar::reduce(GrammarId::IdExpr, SqlGrammar::Letter(0, 9, comma(8))),
        SqlGrammar::Letter(8, 9, comma(8))
    );
}

#[test]
fn test_definitions() {
    assert_eq!(
        GrammarPattern::from(GrammarId::IdExpr),
        GrammarPattern::Letter(LetterId::Id)
    );
    assert_eq!(
        GrammarPattern::from(GrammarId::ColumnClause),
        GrammarPattern::And(vec![
            Box::new(GrammarPattern::Grammar(GrammarId::IdExpr)),
            Box::new(GrammarPattern::Grammar(GrammarId::IdExpr)),
        ])
    );
    assert_eq!(
        GrammarPattern::from(GrammarId::CreateTableStmt),
        GrammarPattern::And(vec![
            Box::new(GrammarPattern::Letter(LetterId::Create)),
            Box::new(GrammarPattern::Letter(LetterId::Table)),
            Box::new(GrammarPattern::Grammar(GrammarId::IdExpr)),
            Box::new(GrammarPattern::Letter(LetterId::ParenL)),
            Box::new(GrammarPattern::Any(Box::new(GrammarPattern::And(vec![
                Box::new(GrammarPattern::Grammar(GrammarId::ColumnClause)),
                Box::new(GrammarPattern::Letter(LetterId::Comma)),
            ])))),
            Box::new(GrammarPattern::Grammar(GrammarId::ColumnClause)),
            Box::new(GrammarPattern::Letter(LetterId::ParenR)),
        ])
    );
}

#[test]
fn test_try_match_letter() {
    let letters = vec![comma(3), id(5, 6, "a")];
    let mut cursor = 0;
    assert_eq!(
        GrammarPattern::Letter(LetterId::Comma).try_match(&letters, &mut cursor, 1),
        Ok((SqlGrammar::Letter(3, 4, comma(3)), 4))
    );
    assert_eq!(cursor, 1);
    assert_eq!(
        GrammarPattern::Letter(LetterId::Comma).try_match(&letters, &mut cursor, 4),
        Err(SqlErr::Miss(4, "COMMA".to_string()))
    );
    assert_eq!(cursor, 2);
    assert_eq!(
        GrammarPattern::Letter(LetterId::Id).try_match(&letters, &mut cursor, 6),
        Err(SqlErr::Miss(6, "ID".to_string()))
    );
    assert_eq!(cursor, 2);
}

#[test]
fn test_try_match_identifier_rule() {
    let letters = vec![id(5, 6, "a")];
    let mut cursor = 0;
    assert_eq!(
        GrammarPattern::Grammar(GrammarId::IdExpr).try_match(&letters, &mut cursor, 2),
        Ok((id_node(5, 6, "a"), 6))
    );
    assert_eq!(cursor, 1);
}

#[test]
fn test_try_match_sequence_is_flat() {
    let letters = vec![id(0, 1, "a"), comma(1), comma(2), id(3, 4, "b")];
    let commas = GrammarPattern::Any(Box::new(GrammarPattern::Letter(LetterId::Comma)));
    let pattern = GrammarPattern::And(vec![
        Box::new(GrammarPattern::Grammar(GrammarId::IdExpr)),
        Box::new(commas),
        Box::new(GrammarPattern::Grammar(GrammarId::IdExpr)),
    ]);
    let mut cursor = 0;
    assert_eq!(
        pattern.try_match(&letters, &mut cursor, 0),
        Ok((
            SqlGrammar::Vec(
                0,
                4,
                vec![
                    id_node(0, 1, "a"),
                    SqlGrammar::Letter(1, 2, comma(1)),
                    SqlGrammar::Letter(2, 3, comma(2)),
                    id_node(3, 4, "b"),
                ]
            ),
            4
        ))
    );
    assert_eq!(cursor, 4);
}

#[test]
fn test_try_match_sequence_gives_the_first_error() {
    let letters = vec![id(0, 1, "a"), id(2, 3, "b")];
    let pattern = GrammarPattern::And(vec![
        Box::new(GrammarPattern::Grammar(GrammarId::IdExpr)),
        Box::new(GrammarPattern::Letter(LetterId::Comma)),
        Box::new(GrammarPattern::Letter(LetterId::ParenR)),
    ]);
    let mut cursor = 0;
    assert_eq!(
        pattern.try_match(&letters, &mut cursor, 0),
        Err(SqlErr::Miss(1, "COMMA".to_string()))
    );
}

#[test]
fn test_try_match_repetition_never_fails() {
    let pattern = GrammarPattern::Any(Box::new(GrammarPattern::Letter(LetterId::Comma)));
    let letters = vec![id(0, 1, "a"), comma(1)];
    let mut cursor = 0;
    assert_eq!(
        pattern.try_match(&letters, &mut cursor, 0),
        Ok((SqlGrammar::Vec(0, 0, vec![]), 0))
    );
    assert_eq!(cursor, 0);
    let mut cursor = 2;
    assert_eq!(
        pattern.try_match(&letters, &mut cursor, 2),
        Ok((SqlGrammar::Vec(2, 2, vec![]), 2))
    );
    assert_eq!(cursor, 2);
    let mut cursor = 7;
    assert_eq!(
        pattern.try_match(&vec![], &mut cursor, 5),
        Ok((SqlGrammar::Vec(5, 5, vec![]), 5))
    );
    assert_eq!(cursor, 7);
}

#[test]
fn test_try_match_repetition_takes_what_its_attempts_took() {
    let pair = GrammarPattern::And(vec![
        Box::new(GrammarPattern::Grammar(GrammarId::IdExpr)),
        Box::new(GrammarPattern::Letter(LetterId::Comma)),
    ]);
    let pattern = GrammarPattern::Any(Box::new(pair));
    let letters = vec![
        id(0, 1, "a"),
        comma(1),
        id(2, 3, "b"),
        comma(3),
        id(4, 5, "c"),
        SqlLetter::ParenR(5, 6, ")".to_string()),
    ];
    let mut cursor = 0;
    assert_eq!(
        pattern.try_match(&letters, &mut cursor, 0),
        Ok((
            SqlGrammar::Vec(
                0,
                4,
                vec![
                    id_node(0, 1, "a"),
                    SqlGrammar::Letter(1, 2, comma(1)),
                    id_node(2, 3, "b"),
                    SqlGrammar::Letter(3, 4, comma(3)),
                ]
            ),
            4
        ))
    );
    assert_eq!(cursor, 4);
}

#[test]
fn test_rule_matches_all_letters() {
    let letters = vec![id(0, 1, "a"), id(2, 5, "int")];
    assert_eq!(
        GrammarId::ColumnClause.matches(&letters),
        Ok(SqlGrammar::ColumnClause(
            0,
            5,
            ColumnClause {
                name: IdExpr { value: "a".to_string() },
                data_type: IdExpr { value: "int".to_string() },
            }
        ))
    );
    assert_eq!(
        GrammarId::IdExpr.matches(&letters),
        Err(SqlErr::Syntax(1))
    );
    assert_eq!(
        GrammarId::IdExpr.matches(&vec![id(3, 4, "x")]),
        Ok(id_node(3, 4, "x"))
    );
    assert_eq!(
        GrammarId::IdExpr.matches(&vec![]),
        Err(SqlErr::Miss(0, "ID".to_string()))
    );
    assert_eq!(
        GrammarId::ColumnClause.matches(&vec![id(0, 1, "a")]),
        Err(SqlErr::Miss(1, "ID".to_string()))
    );
}

#[test]
fn test_syntax_nodes() {
    let name = IdExpr { value: "T".to_string() };
    let stmt = CreateTableStmt { name: name.clone(), columns: vec![] };
    let node = SyntaxNode::Stmt(Stmt::CreateTable(stmt.clone()));
    assert_eq!(node.clone(), node);
    assert_ne!(node, SyntaxNode::CreateTableStmt(stmt));
    assert_ne!(SyntaxNode::IdExpr(name.clone()), SyntaxNode::IdExpr(IdExpr { value: "U".to_string() }));
}

#[test]
fn test_grammar_pattern_properties() {
    for id in [GrammarId::CreateTableStmt, GrammarId::ColumnClause, GrammarId::IdExpr] {
        let pattern = GrammarPattern::from(id);
        assert!(pattern.well_formed());
        assert!(pattern.productive());
        assert!(!pattern.nullable());
        assert_eq!(pattern.clone(), pattern);
        assert!(GrammarPattern::Grammar(id).well_formed());
        assert!(!GrammarPattern::Grammar(id).nullable());
    }
    assert!(!GrammarPattern::Grammar(GrammarId::Letter).well_formed());
    assert!(!GrammarPattern::Grammar(GrammarId::Vec).well_formed());
    assert!(GrammarPattern::And(vec![]).well_formed());
    assert!(GrammarPattern::And(vec![]).nullable());
    let commas = GrammarPattern::Any(Box::new(GrammarPattern::Letter(LetterId::Comma)));
    assert!(commas.well_formed());
    assert!(commas.productive());
    assert!(commas.nullable());
    let twice = GrammarPattern::Any(Box::new(commas.clone()));
    assert!(twice.well_formed());
    assert!(!twice.productive());
    assert!(!GrammarPattern::Any(Box::new(GrammarPattern::And(vec![]))).productive());
    assert!(!GrammarPattern::And(vec![
        Box::new(GrammarPattern::Letter(LetterId::Id)),
        Box::new(GrammarPattern::Grammar(GrammarId::Vec)),
    ])
    .well_formed());
    assert!(!GrammarPattern::Any(Box::new(GrammarPattern::Grammar(GrammarId::Letter))).well_formed());
    assert!(!GrammarPattern::And(vec![
        Box::new(commas),
        Box::new(GrammarPattern::Letter(LetterId::Id)),
    ])
    .nullable());
}

#[test]
fn test_repetition_ends_on_a_match_that_takes_no_token() {
    let commas = GrammarPattern::Any(Box::new(GrammarPattern::Letter(LetterId::Comma)));
    let twice = GrammarPattern::Any(Box::new(commas));
    let letters = vec![comma(0), comma(1), id(2, 3, "a")];
    let mut cursor = 0;
    assert_eq!(
        twice.try_match(&letters, &mut cursor, 0),
        Ok((
            SqlGrammar::Vec(
                0,
                2,
                vec![SqlGrammar::Letter(0, 1, comma(0)), SqlGrammar::Letter(1, 2, comma(1))]
            ),
            2
        ))
    );
    assert_eq!(cursor, 2);
    assert_eq!(
        twice.try_match(&letters, &mut cursor, 2),
        Ok((SqlGrammar::Vec(2, 2, vec![]), 2))
    );
    assert_eq!(cursor, 2);
    let nothing = GrammarPattern::Any(Box::new(GrammarPattern::And(vec![])));
    let mut cursor = 1;
    assert_eq!(
        nothing.try_match(&letters, &mut cursor, 1),
        Ok((SqlGrammar::Vec(1, 1, vec![]), 1))
    );
    assert_eq!(cursor, 1);
}

#[test]
fn test_token_node_spans_its_token() {
    let table = SqlLetter::Table(7, 12, "TABLE".to_string());
    let letters = vec![table.clone()];
    let mut cursor = 0;
    assert_eq!(
        GrammarPattern::Letter(LetterId::Table).try_match(&letters, &mut cursor, 6),
        Ok((SqlGrammar::Letter(7, 12, table), 12))
    );
    assert_eq!(cursor, 1);
}

#[test]
fn test_sequence_node_begins_where_matching_stood() {
    let letters = vec![comma(3), id(6, 7, "a")];
    let pattern = GrammarPattern::And(vec![
        Box::new(GrammarPattern::Letter(LetterId::Comma)),
        Box::new(GrammarPattern::Grammar(GrammarId::IdExpr)),
    ]);
    let mut cursor = 0;
    assert_eq!(
        pattern.try_match(&letters, &mut cursor, 1),
        Ok((
            SqlGrammar::Vec(
                1,
                7,
                vec![SqlGrammar::Letter(3, 4, comma(3)), id_node(6, 7, "a")]
            ),
            7
        ))
    );
    assert_eq!(cursor, 2);
}
