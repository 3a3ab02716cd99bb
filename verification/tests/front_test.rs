use lib::arg_handling::has_extension;
use lib::ast::{parse_all_tokens, Parser};
use lib::lexer::{get_number, get_token, get_word, pass_whitespace, tokenize_line, tokenize_lines};
use lib::semantic::SemanticAnalyzer;
use lib::structure::{
    ExpressionKind, FileItem, Span, Statement, Token, TokenOperation, TokenType, Type, Value,
};

fn chars(s: &str) -> Vec<char> {
    s.chars().collect()
}

fn kinds(line: &str) -> Vec<TokenType> {
    tokenize_line(line, 1, "f.fst").unwrap().into_iter().map(|t| t.token_type).collect()
}

#[test]
fn whitespace_is_skipped() {
    let c = chars("  \t x");
    let mut cur = 0;
    pass_whitespace(&c, &mut cur);
    assert_eq!(cur, 4);
    let mut past = 10;
    pass_whitespace(&c, &mut past);
    assert_eq!(past, 10);
}

#[test]
fn words_and_numbers() {
    let c = chars("abc_9 + 123x");
    let mut cur = 0;
    assert_eq!(get_word(&c, &mut cur), "abc_9");
    assert_eq!(cur, 5);
    let mut cur = 8;
    assert_eq!(get_number(&c, &mut cur), "123");
    assert_eq!(cur, 11);
    let mut cur = 20;
    assert_eq!(get_word(&c, &mut cur), "");
    assert_eq!(cur, 20);
}

#[test]
fn keywords_and_symbols() {
    assert_eq!(
        kinds("fonction retourner entier decimal Texte vide nom ( ) { } , ; + - * / ="),
        vec![
            TokenType::Function,
            TokenType::Return,
            TokenType::TypeInt,
            TokenType::TypeFloat,
            TokenType::TypeText,
            TokenType::TypeVoid,
            TokenType::Identifier("nom".to_string()),
            TokenType::LParen,
            TokenType::RParen,
            TokenType::LBrace,
            TokenType::RBrace,
            TokenType::Comma,
            TokenType::Semicolon,
            TokenType::Plus,
            TokenType::Minus,
            TokenType::Multiply,
            TokenType::Divide,
            TokenType::Assign,
        ]
    );
}

#[test]
fn token_spans() {
    let tokens = tokenize_line("  x = \"ab c\";", 7, "f.fst").unwrap();
    assert_eq!(tokens.len(), 4);
    assert_eq!(tokens[0].span, Span { line: 7, column: 2, length: 1 });
    assert_eq!(tokens[1].span, Span { line: 7, column: 4, length: 1 });
    assert_eq!(tokens[2].token_type, TokenType::StringLiteral("ab c".to_string()));
    assert_eq!(tokens[2].span, Span { line: 7, column: 6, length: 6 });
    assert_eq!(tokens[3].span, Span { line: 7, column: 12, length: 1 });
}

#[test]
fn end_token_at_end_of_line() {
    let c = chars("a  ");
    let mut cur = 1;
    let t = get_token(&c, &mut cur, 3, "f.fst").unwrap();
    assert_eq!(t, Token { token_type: TokenType::EOF, span: Span { line: 3, column: 3, length: 0 } });
    assert_eq!(cur, 3);
}

#[test]
fn unclosed_text_is_an_error() {
    let e = tokenize_line("x \"abc", 2, "f.fst").unwrap_err();
    assert_eq!(e.message, "String non fermée");
    assert_eq!(e.file, "f.fst");
    assert_eq!(e.span, Span { line: 2, column: 2, length: 1 });
}

#[test]
fn unexpected_character_is_an_error() {
    let e = tokenize_line("a $", 4, "g.fst").unwrap_err();
    assert_eq!(e.message, "Caractère inattendu '$'");
    assert_eq!(e.span, Span { line: 4, column: 2, length: 1 });
}

#[test]
fn file_tokens_end_with_one_end_token() {
    let lines = vec!["a".to_string(), "".to_string(), "b c".to_string()];
    let tokens = tokenize_lines(&lines, "f.fst").unwrap();
    assert_eq!(tokens.len(), 4);
    assert_eq!(tokens[0].span.line, 1);
    assert_eq!(tokens[1].span.line, 3);
    assert_eq!(tokens[2].span.line, 3);
    assert_eq!(tokens[3], Token { token_type: TokenType::EOF, span: Span { line: 0, column: 0, length: 0 } });
    let bad = vec!["a".to_string(), "#".to_string(), "\"".to_string()];
    assert_eq!(tokenize_lines(&bad, "f.fst").unwrap_err().span.line, 2);
}

fn parse_lines(lines: &[&str]) -> Result<lib::structure::Program, lib::structure::CompilerError> {
    let lines: Vec<String> = lines.iter().map(|l| l.to_string()).collect();
    let tokens = tokenize_lines(&lines, "p.fst").unwrap();
    parse_all_tokens(tokens, "p.fst".to_string(), String::new())
}

#[test]
fn parse_function_with_operations() {
    let program = parse_lines(&["fonction f(entier a, Texte b) vide {", "  g(a - 1, b);", "  retourner 7 + a - 2;", "}"]).unwrap();
    assert_eq!(program.files.len(), 1);
    assert_eq!(program.files[0].path, "p.fst");
    let f = match &program.files[0].items[0] {
        FileItem::Function(f) => f,
        _ => panic!(),
    };
    assert_eq!(f.name, "f");
    assert_eq!(f.parameters.len(), 2);
    assert_eq!(f.parameters[1].arg_type, Type::Text);
    assert_eq!(f.return_type, Type::Void);
    assert_eq!(f.body.len(), 2);
    match &f.body[1] {
        Statement::Return(r) => match &r.value.as_ref().unwrap().kind {
            ExpressionKind::Operation(op) => {
                assert_eq!(op.operator, TokenOperation::Subtract);
                assert!(matches!(op.right.kind, ExpressionKind::Value(Value::Int(2))));
                match &op.left.kind {
                    ExpressionKind::Operation(inner) => assert_eq!(inner.operator, TokenOperation::Add),
                    _ => panic!(),
                }
            }
            _ => panic!(),
        },
        _ => panic!(),
    }
}

#[test]
fn parse_errors() {
    let e = parse_lines(&["entier x;"]).unwrap_err();
    assert_eq!(e.message, "Item inattendu");
    let e = parse_lines(&["fonction (){}"]).unwrap_err();
    assert_eq!(e.message, "nom de fonction attendu");
    let e = parse_lines(&["fonction f() {}"]).unwrap_err();
    assert_eq!(e.message, "type attendu");
    let e = parse_lines(&["fonction f() entier { retourner 1 }"]).unwrap_err();
    assert_eq!(e.message, "';' attendu");
    let e = parse_lines(&["fonction f(entier 3) entier {}"]).unwrap_err();
    assert_eq!(e.message, "nom d'argument attendu");
    let e = parse_lines(&["fonction f() entier { retourner ; }"]).unwrap_err();
    assert_eq!(e.message, "expression invalide");
}

#[test]
fn numbers_out_of_range_read_as_zero() {
    let program = parse_lines(&["fonction f() entier { retourner 99999999999999999999; }"]).unwrap();
    let f = match &program.files[0].items[0] {
        FileItem::Function(f) => f,
        _ => panic!(),
    };
    match &f.body[0] {
        Statement::Return(r) => assert!(matches!(r.value.as_ref().unwrap().kind, ExpressionKind::Value(Value::Int(0)))),
        _ => panic!(),
    }
}

#[test]
fn parser_on_empty_input() {
    let mut parser = Parser {
        tokens: vec![Token { token_type: TokenType::EOF, span: Span { line: 0, column: 0, length: 0 } }],
        current: 0,
        file: "e.fst".to_string(),
    };
    let file = parser.parse("e.fst".to_string(), "".to_string()).unwrap();
    assert!(file.items.is_empty());
    assert_eq!(parser.current, 0);
}

fn analyze(lines: &[&str]) -> Result<(), lib::structure::CompilerError> {
    let program = parse_lines(lines).unwrap();
    SemanticAnalyzer::new().analyze(&program)
}

#[test]
fn semantic_accepts_well_typed() {
    assert!(analyze(&[
        "fonction h(entier a) entier { retourner a; }",
        "fonction k() entier { entier y = h(3) + 1; retourner y; }",
    ])
    .is_ok());
}

#[test]
fn semantic_errors() {
    let e = analyze(&["fonction f() vide {}", "fonction f() vide {}"]).unwrap_err();
    assert_eq!(e.message, "Fonction 'f' déjà déclarée");
    let e = analyze(&["fonction f() vide { entier x; entier x; }"]).unwrap_err();
    assert_eq!(e.message, "Variable 'x' déjà déclarée");
    let e = analyze(&["fonction f() vide { entier x = \"a\"; }"]).unwrap_err();
    assert_eq!(e.message, "Type attendu Int mais Text reçu");
    let e = analyze(&["fonction f() vide { retourner y; }"]).unwrap_err();
    assert_eq!(e.message, "Variable inconnue 'y'");
    let e = analyze(&["fonction f() vide { g(); }"]).unwrap_err();
    assert_eq!(e.message, "Fonction inconnue 'g'");
    let e = analyze(&["fonction g(entier a) vide {}", "fonction f() vide { g(1, 2); }"]).unwrap_err();
    assert_eq!(e.message, "La fonction 'g' attend 1 arguments mais 2 reçu(s)");
    let e = analyze(&["fonction g(entier a) vide {}", "fonction f() vide { g(\"t\"); }"]).unwrap_err();
    assert_eq!(e.message, "Argument 'a' invalide");
    let e = analyze(&["fonction f() vide { 1 + \"t\"; }"]).unwrap_err();
    assert_eq!(e.message, "Types incompatibles dans l'opération");
    assert_eq!(e.file, "p.fst");
}

#[test]
fn function_used_before_declared_is_known() {
    assert!(analyze(&["fonction a() entier { retourner b(); }", "fonction b() entier { retourner 1; }"]).is_ok());
}

#[test]
fn second_analysis_refuses_known_functions() {
    let program = parse_lines(&["fonction f() vide {}"]).unwrap();
    let mut analyzer = SemanticAnalyzer::new();
    assert!(analyzer.analyze(&program).is_ok());
    assert_eq!(analyzer.analyze(&program).unwrap_err().message, "Fonction 'f' déjà déclarée");
}

#[test]
fn extensions() {
    assert!(has_extension("dir/prog.fst", "fst"));
    assert!(!has_extension("dir/prog.fs", "fst"));
    assert!(!has_extension("fst", "fst"));
    assert!(!has_extension(".fst", "fst"));
}
