use docstore::datatypes::DataType;
use docstore::query_ingestor::{ingest, lexer, parser, Instructions, Token};
use docstore::query_proc::QueryResult;

#[test]
fn get_tokens() {
    let query = String::from("{username:\"johnperry\"}");
    let results = lexer(&query).unwrap();
    println!("{:?}", results);
    assert_eq!(
        results,
        vec![
            Token::OpenCurly,
            Token::Field(String::from("username")),
            Token::String(String::from("johnperry")),
            Token::CloseCurly
        ]
    )
}

#[test]
fn get_tokens_2_fields() {
    let query = String::from("{username: \"johnperry\", email:\"johnperry@example.com\"}");
    let results = lexer(&query).unwrap();
    println!("{:?}", results);
    assert_eq!(
        results,
        vec![
            Token::OpenCurly,
            Token::Field(String::from("username")),
            Token::String(String::from("johnperry")),
            Token::Field(String::from("email")),
            Token::String(String::from("johnperry@example.com")),
            Token::CloseCurly
        ]
    )
}

#[test]
fn get_tokens_number() {
    let query = String::from("{username: \"johnperry\", id: 31}");
    let results = lexer(&query).unwrap();
    println!("{:?}", results);
    assert_eq!(
        results,
        vec![
            Token::OpenCurly,
            Token::Field(String::from("username")),
            Token::String(String::from("johnperry")),
            Token::Field(String::from("id")),
            Token::Number(31u64),
            Token::CloseCurly
        ]
    )
}

#[test]
fn get_tokens_2_numbers() {
    let query = String::from("{project_id : 6543,username: \"johnperry\", id: 31}");
    let results = lexer(&query).unwrap();
    println!("{:?}", results);
    assert_eq!(
        results,
        vec![
            Token::OpenCurly,
            Token::Field(String::from("project_id")),
            Token::Number(6543u64),
            Token::Field(String::from("username")),
            Token::String(String::from("johnperry")),
            Token::Field(String::from("id")),
            Token::Number(31u64),
            Token::CloseCurly
        ]
    )
}

#[test]
fn parse_tokens() {
    let query = String::from("{username: \"johnperry\", email:\"johnperry@example.com\"}");
    let results = lexer(&query).unwrap();
    println!("{:?}", results);
    let parsed = parser(results);
    println!("{:?}", parsed);
    assert_eq!(
        parsed,
        vec![
            Instructions::Equal(
                String::from("username"),
                DataType::String(String::from("johnperry"))
            ),
            Instructions::Equal(
                String::from("email"),
                DataType::String(String::from("johnperry@example.com"))
            )
        ]
    )
}

#[test]
fn process_operations() {
    let query = String::from("{username: \"johnperry\", email:\"johnperry@example.com\"}");
    let results = lexer(&query).unwrap();
    println!("{:?}", results);
    let parsed = parser(results);
    println!("{:?}", parsed);
    assert_eq!(
        parsed,
        vec![
            Instructions::Equal(
                String::from("username"),
                DataType::String(String::from("johnperry"))
            ),
            Instructions::Equal(
                String::from("email"),
                DataType::String(String::from("johnperry@example.com"))
            )
        ]
    )
}

#[test]
fn open_brace_inside_string_is_kept() {
    // string literals take every character between the quotes verbatim
    let query = String::from("{a:\"b{c\"}");
    let results = lexer(&query).unwrap();
    assert_eq!(
        results,
        vec![
            Token::OpenCurly,
            Token::Field(String::from("a")),
            Token::String(String::from("b{c")),
            Token::CloseCurly
        ]
    );
    let parsed = parser(results);
    assert_eq!(
        parsed,
        vec![Instructions::Equal(
            String::from("a"),
            DataType::String(String::from("b{c"))
        )]
    );
}

#[test]
fn string_literal_keeps_delimiters_verbatim() {
    let query = String::from("{a:\"x}y:z,w {v\"}");
    let results = lexer(&query).unwrap();
    assert_eq!(
        results,
        vec![
            Token::OpenCurly,
            Token::Field(String::from("a")),
            Token::String(String::from("x}y:z,w {v")),
            Token::CloseCurly
        ]
    );
}

#[test]
fn missing_closing_brace_is_invalid() {
    let query = String::from("{username:\"johnperry\"");
    assert!(matches!(lexer(&query), Err(QueryResult::InvalidQueryError)));
}

#[test]
fn leading_zero_number_is_invalid() {
    let query = String::from("{age:07}");
    assert!(matches!(lexer(&query), Err(QueryResult::InvalidQueryError)));
    let bare_zero = String::from("{age:0}");
    assert!(matches!(
        lexer(&bare_zero),
        Err(QueryResult::InvalidQueryError)
    ));
}

#[test]
fn zero_inside_number_is_accepted() {
    let query = String::from("{age:200}");
    let results = lexer(&query).unwrap();
    assert_eq!(
        results,
        vec![
            Token::OpenCurly,
            Token::Field(String::from("age")),
            Token::Number(200u64),
            Token::CloseCurly
        ]
    )
}

#[test]
fn oversized_number_is_invalid() {
    // u64::MAX is 18446744073709551615; one more digit overflows.
    let query = String::from("{age:184467440737095516150}");
    assert!(matches!(ingest(&query), Err(QueryResult::InvalidQueryError)));
}

#[test]
fn largest_number_is_accepted() {
    let query = String::from("{age:18446744073709551615}");
    let results = lexer(&query).unwrap();
    assert_eq!(
        results,
        vec![
            Token::OpenCurly,
            Token::Field(String::from("age")),
            Token::Number(u64::MAX),
            Token::CloseCurly
        ]
    )
}

#[test]
fn comma_inside_field_name_is_invalid() {
    let query = String::from("{user,name:\"x\"}");
    assert!(matches!(ingest(&query), Err(QueryResult::InvalidQueryError)));
}

#[test]
fn parser_discards_unpaired_tokens() {
    // A literal with no preceding field name fits no predicate and is
    // silently dropped.
    let tokens = vec![
        Token::OpenCurly,
        Token::String(String::from("stray")),
        Token::Field(String::from("id")),
        Token::Number(31u64),
        Token::CloseCurly,
    ];
    let parsed = parser(tokens);
    assert_eq!(
        parsed,
        vec![Instructions::Equal(String::from("id"), DataType::U64(31u64))]
    );
}

#[test]
fn ingest_produces_instructions() {
    let query = String::from("{username:\"johnperry\"}");
    let parsed = ingest(&query).unwrap();
    assert_eq!(
        parsed,
        vec![Instructions::Equal(
            String::from("username"),
            DataType::String(String::from("johnperry"))
        )]
    );
}
