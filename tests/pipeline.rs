use bluefile::grammar::{is_attribute, is_keyword, match_attribute, AttributeType, Node, NodeField, Token};
use bluefile::lexer::{lex, LexError};
use bluefile::out::go::render_go;
use bluefile::out::ts::render_ts;
use bluefile::out::{extension, render, Backend};
use bluefile::parser::{parse, ParseError};
use bluefile::validate::{validate, DuplicateField};
use bluefile::{build_models, compile, CompileError};

fn ident(s: &str) -> Token {
    Token::Identifier(s.to_string())
}

fn field(name: &str, attribute_type: AttributeType) -> NodeField {
    NodeField { attribute_type, is_nullable: false, name: name.to_string() }
}

fn movie() -> Node {
    Node {
        name: "Movie".to_string(),
        fields: vec![
            field("id", AttributeType::Int),
            field("name", AttributeType::String),
            field("star", AttributeType::Int),
        ],
    }
}

#[test]
fn keyword_is_only_model() {
    assert!(is_keyword(&"model".to_string()));
    assert!(!is_keyword(&"Model".to_string()));
    assert!(!is_keyword(&"models".to_string()));
    assert!(!is_keyword(&"".to_string()));
}

#[test]
fn attribute_table() {
    for w in ["byte", "int", "float", "boolean", "string", "byte[]", "int[]", "float[]", "boolean[]", "string[]"] {
        assert!(is_attribute(&w.to_string()), "{}", w);
    }
    for w in ["Movie", "Movie[]", "integer", "int[][]", "[]", "str"] {
        assert!(!is_attribute(&w.to_string()), "{}", w);
    }
}

#[test]
fn scalar_literals_resolve() {
    assert_eq!(match_attribute("byte".to_string()), AttributeType::Byte);
    assert_eq!(match_attribute("int".to_string()), AttributeType::Int);
    assert_eq!(match_attribute("float".to_string()), AttributeType::Float);
    assert_eq!(match_attribute("boolean".to_string()), AttributeType::Boolean);
    assert_eq!(match_attribute("string".to_string()), AttributeType::String);
}

#[test]
fn array_literals_resolve_to_arrays() {
    assert_eq!(match_attribute("byte[]".to_string()), AttributeType::ByteArray);
    assert_eq!(match_attribute("int[]".to_string()), AttributeType::IntArray);
    assert_eq!(match_attribute("float[]".to_string()), AttributeType::FloatArray);
    assert_eq!(match_attribute("boolean[]".to_string()), AttributeType::BooleanArray);
    assert_eq!(match_attribute("string[]".to_string()), AttributeType::StringArray);
}

#[test]
fn unknown_words_are_references() {
    assert_eq!(match_attribute("Movie".to_string()), AttributeType::Custom);
    assert_eq!(match_attribute("Movie[]".to_string()), AttributeType::CustomArray);
    assert_eq!(match_attribute("integer".to_string()), AttributeType::Custom);
    assert_eq!(match_attribute("integer[]".to_string()), AttributeType::CustomArray);
    assert_eq!(match_attribute("int[][]".to_string()), AttributeType::CustomArray);
}

#[test]
fn tokens_of_movie() {
    let tokens = lex("model Movie { id int, name string, star int }").unwrap();
    assert_eq!(
        tokens,
        vec![
            Token::Keyword("model".to_string()),
            ident("Movie"),
            Token::LBracket,
            ident("id"),
            Token::Attribute(AttributeType::Int),
            Token::Comma,
            ident("name"),
            Token::Attribute(AttributeType::String),
            Token::Comma,
            ident("star"),
            Token::Attribute(AttributeType::Int),
            Token::RBracket,
        ]
    );
}

#[test]
fn words_continue_with_digits_underscores_and_letters() {
    let tokens = lex("model A1 { f_2 Other_3[] g\u{e9}x int }").unwrap();
    assert_eq!(
        tokens,
        vec![
            Token::Keyword("model".to_string()),
            ident("A1"),
            Token::LBracket,
            ident("f_2"),
            Token::Attribute(AttributeType::CustomArray),
            ident("g\u{e9}x"),
            Token::Attribute(AttributeType::Int),
            Token::RBracket,
        ]
    );
}

#[test]
fn brackets_only_close_a_word() {
    assert_eq!(lex("model a[b"), Err(LexError { character: '[', line: 1, column: 8 }));
    assert_eq!(lex("model X { f int[ }"), Err(LexError { character: '[', line: 1, column: 16 }));
    assert_eq!(lex("model X { f int[][] }"), Err(LexError { character: '[', line: 1, column: 18 }));
    assert_eq!(lex("model X { f ]int }"), Err(LexError { character: ']', line: 1, column: 13 }));
    let tokens = lex("model X { f int[] }").unwrap();
    assert_eq!(tokens[4], Token::Attribute(AttributeType::IntArray));
}

#[test]
fn second_line_column_ignores_first_line_length() {
    let e = LexError { character: '$', line: 2, column: 4 };
    assert_eq!(lex("model X { a int }\n   $ rest\n{"), Err(e));
    assert_eq!(lex("model LongerName { alpha int, beta string }\n   $"), Err(e));
}

#[test]
fn unexpected_character_on_first_line() {
    assert_eq!(lex("model X $"), Err(LexError { character: '$', line: 1, column: 9 }));
}

#[test]
fn column_restarts_on_second_line() {
    assert_eq!(lex("model X {\n  $ }"), Err(LexError { character: '$', line: 2, column: 3 }));
    assert_eq!(lex("model X {\nab ; }"), Err(LexError { character: ';', line: 2, column: 4 }));
}

#[test]
fn empty_source_lexes_to_nothing_and_fails_to_parse() {
    let tokens = lex("").unwrap();
    assert!(tokens.is_empty());
    assert_eq!(parse(&tokens), Err(ParseError::Empty));
    assert_eq!(build_models("  \n "), Err(CompileError::Parse(ParseError::Empty)));
}

#[test]
fn token_kinds_compare_without_payload() {
    assert!(ident("a").same_kind(&ident("b")));
    assert!(Token::Attribute(AttributeType::Int).same_kind(&Token::Attribute(AttributeType::Custom)));
    assert!(!ident("a").same_kind(&Token::Keyword("a".to_string())));
    assert!(Token::Comma.same_kind(&Token::Comma));
    assert!(!Token::LBracket.same_kind(&Token::RBracket));
}

#[test]
fn parse_movie_with_commas() {
    let tokens = lex("model Movie { id int, name string, star int }").unwrap();
    assert_eq!(parse(&tokens), Ok(vec![movie()]));
}

#[test]
fn parse_without_commas_and_trailing_comma() {
    let a = lex("model Movie {\n  id int\n  name string\n  star int\n}").unwrap();
    assert_eq!(parse(&a), Ok(vec![movie()]));
    let b = lex("model Movie { id int, name string, star int, }").unwrap();
    assert_eq!(parse(&b), Ok(vec![movie()]));
}

#[test]
fn parse_single_field_model() {
    let tokens = lex("model X { f Y[] }").unwrap();
    let expected = Node { name: "X".to_string(), fields: vec![field("f", AttributeType::CustomArray)] };
    assert_eq!(parse(&tokens), Ok(vec![expected]));
}

#[test]
fn parse_several_models_in_order() {
    let tokens = lex("model A { x byte[] }\nmodel B { y A, z float }\nmodel C { }").unwrap();
    let nodes = parse(&tokens).unwrap();
    assert_eq!(nodes.len(), 3);
    assert_eq!(nodes[0], Node { name: "A".to_string(), fields: vec![field("x", AttributeType::ByteArray)] });
    assert_eq!(
        nodes[1],
        Node {
            name: "B".to_string(),
            fields: vec![field("y", AttributeType::Custom), field("z", AttributeType::Float)],
        }
    );
    assert_eq!(nodes[2], Node { name: "C".to_string(), fields: vec![] });
}

#[test]
fn parse_errors_by_position() {
    let tokens = vec![ident("X"), Token::LBracket, Token::RBracket];
    assert_eq!(parse(&tokens), Err(ParseError::MissingKeyword));
    let tokens = vec![Token::Keyword("model".to_string()), Token::LBracket, Token::RBracket];
    assert_eq!(parse(&tokens), Err(ParseError::MissingIdentifier));
    let tokens = vec![Token::Keyword("model".to_string()), ident("X"), Token::RBracket];
    assert_eq!(parse(&tokens), Err(ParseError::MissingOpenBrace));
    let tokens = lex("model X { a int").unwrap();
    assert_eq!(parse(&tokens), Err(ParseError::MissingCloseBrace));
    let tokens = lex("model X { a int } model").unwrap();
    assert_eq!(parse(&tokens), Err(ParseError::MissingIdentifier));
}

#[test]
fn field_pattern_errors() {
    let tokens = lex("model X { a }").unwrap();
    assert_eq!(parse(&tokens), Err(ParseError::FieldPattern));
    let tokens = lex("model X { , a int }").unwrap();
    assert_eq!(parse(&tokens), Err(ParseError::FieldPattern));
    let tokens = lex("model X { a int,, b int }").unwrap();
    assert_eq!(parse(&tokens), Err(ParseError::FieldPattern));
}

#[test]
fn duplicate_fields_are_all_reported() {
    let result = build_models("model A { x int, y int }\nmodel B { k int, v string, k int, v bool, k byte }");
    let expected = vec![
        DuplicateField { node: "B".to_string(), field: "k".to_string() },
        DuplicateField { node: "B".to_string(), field: "v".to_string() },
        DuplicateField { node: "B".to_string(), field: "k".to_string() },
    ];
    match result {
        Err(CompileError::Validation(e)) => assert_eq!(e.duplicates, expected),
        other => panic!("unexpected {:?}", other),
    }
}

#[test]
fn validate_passes_distinct_fields_through() {
    let nodes = vec![movie(), Node { name: "Movie".to_string(), fields: vec![field("id", AttributeType::Byte)] }];
    assert_eq!(validate(nodes.clone()), Ok(nodes));
}

#[test]
fn validate_reports_each_node() {
    let a = Node { name: "A".to_string(), fields: vec![field("x", AttributeType::Int), field("x", AttributeType::Int)] };
    let b = Node { name: "B".to_string(), fields: vec![field("y", AttributeType::Int), field("y", AttributeType::Byte)] };
    let err = validate(vec![a, b]).unwrap_err();
    assert_eq!(
        err.duplicates,
        vec![
            DuplicateField { node: "A".to_string(), field: "x".to_string() },
            DuplicateField { node: "B".to_string(), field: "y".to_string() },
        ]
    );
}

const MOVIE_GO: &str = "package models\n\ntype Movie struct {\n\tid int `json:\"id\"`\n\tname string `json:\"name\"`\n\tstar int `json:\"star\"`\n}";
const MOVIE_TS: &str = "type Movie = {\n\tid: number\n\tname: string\n\tstar: number\n}";

#[test]
fn movie_end_to_end() {
    let source = "model Movie { id int, name string, star int }";
    assert_eq!(build_models(source), Ok(vec![movie()]));
    assert_eq!(compile(source, Backend::Go), Ok(MOVIE_GO.to_string()));
    assert_eq!(compile(source, Backend::TypeScript), Ok(MOVIE_TS.to_string()));
}

#[test]
fn members_keep_declaration_order() {
    let node = Node {
        name: "T".to_string(),
        fields: vec![field("a", AttributeType::Int), field("b", AttributeType::String), field("c", AttributeType::Boolean)],
    };
    let nodes = vec![node];
    assert_eq!(
        render_go(&nodes),
        "package models\n\ntype T struct {\n\ta int `json:\"a\"`\n\tb string `json:\"b\"`\n\tc bool `json:\"c\"`\n}"
    );
    assert_eq!(render_ts(&nodes), "type T = {\n\ta: number\n\tb: string\n\tc: boolean\n}");
}

#[test]
fn every_type_maps_in_each_backend() {
    let kinds = [
        ("a", AttributeType::Byte, "byte", "number"),
        ("b", AttributeType::ByteArray, "[]byte", "number"),
        ("c", AttributeType::Int, "int", "number"),
        ("d", AttributeType::IntArray, "[]int", "number"),
        ("e", AttributeType::Float, "float64", "number"),
        ("f", AttributeType::FloatArray, "[]float64", "number"),
        ("g", AttributeType::Boolean, "bool", "boolean"),
        ("h", AttributeType::BooleanArray, "[]bool", "boolean"),
        ("i", AttributeType::String, "string", "string"),
        ("j", AttributeType::StringArray, "[]string", "string"),
        ("k", AttributeType::Custom, "any", "value"),
        ("l", AttributeType::CustomArray, "[]any", "value"),
    ];
    let node = Node { name: "All".to_string(), fields: kinds.iter().map(|(n, a, _, _)| field(n, *a)).collect() };
    let nodes = vec![node];
    let mut go = String::from("package models\n\ntype All struct {\n");
    let mut ts = String::from("type All = {\n");
    for (n, _, g, t) in kinds.iter() {
        go.push_str(&format!("\t{} {} `json:\"{}\"`\n", n, g, n));
        ts.push_str(&format!("\t{}: {}\n", n, t));
    }
    go.push_str("}");
    ts.push_str("}");
    assert_eq!(render(Backend::Go, &nodes), go);
    assert_eq!(render(Backend::TypeScript, &nodes), ts);
}

#[test]
fn several_models_render_in_order() {
    let source = "model A { x int }\nmodel B { y A[] }";
    assert_eq!(
        compile(source, Backend::TypeScript),
        Ok("type A = {\n\tx: number\n}\ntype B = {\n\ty: value\n}".to_string())
    );
    assert_eq!(
        compile(source, Backend::Go),
        Ok("package models\n\ntype A struct {\n\tx int `json:\"x\"`\n}\ntype B struct {\n\ty []any `json:\"y\"`\n}"
            .to_string())
    );
}

#[test]
fn empty_model_list_renders_header_only() {
    assert_eq!(render_go(&vec![]), "package models\n\n");
    assert_eq!(render_ts(&vec![]), "");
}

#[test]
fn compile_reports_stage_errors() {
    assert_eq!(
        compile("model X { a int }\n#", Backend::Go),
        Err(CompileError::Lex(LexError { character: '#', line: 2, column: 1 }))
    );
    assert_eq!(compile("X { a int }", Backend::Go), Err(CompileError::Parse(ParseError::MissingKeyword)));
    assert!(matches!(compile("model X { a int, a int }", Backend::TypeScript), Err(CompileError::Validation(_))));
}

#[test]
fn extensions() {
    assert_eq!(extension(Backend::Go), "go");
    assert_eq!(extension(Backend::TypeScript), "ts");
}
