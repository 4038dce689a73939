use mirrow::library::ast::{ASTNode, BinaryOp, LiteralValue};
use mirrow::library::compiler::{compile_program, BytecodeProgram};
use mirrow::library::lexer::{tokenize, Lexer, TokenKind};
use mirrow::library::parser::Parser;

fn parse_nodes(source: &str) -> Vec<ASTNode> {
    let lexer = Lexer::new(source);
    let mut parser = Parser::new(lexer);
    let program = parser.parse_program();
    assert!(!parser.had_error, "unexpected parse error");
    program.nodes
}

fn compile_source(source: &str) -> Result<BytecodeProgram, String> {
    let lexer = Lexer::new(source);
    let mut parser = Parser::new(lexer);
    let program = parser.parse_program();
    if parser.had_error {
        Err("Parser error".to_string())
    } else {
        compile_program(program)
    }
}

#[test]
fn test_token_stream_ends_with_one_eof() {
    let tokens = tokenize("let x = 1\nlet y = x + 2");
    assert!(tokens.len() >= 2);
    assert_eq!(tokens.last().unwrap().kind, TokenKind::Eof);
    for t in &tokens[..tokens.len() - 1] {
        assert_ne!(t.kind, TokenKind::Eof);
        assert!(t.line >= 1);
    }
}

#[test]
fn test_had_error_iff_diagnostics() {
    let lexer = Lexer::new("let = 42");
    let mut parser = Parser::new(lexer);
    let _ = parser.parse_program();
    assert!(parser.had_error);
    assert!(!parser.diagnostics.is_empty());

    let lexer2 = Lexer::new("let x = 42");
    let mut parser2 = Parser::new(lexer2);
    let _ = parser2.parse_program();
    assert!(!parser2.had_error);
    assert!(parser2.diagnostics.is_empty());
}

#[test]
fn test_opcodes_and_constants_are_registered() {
    let bp = compile_source("let x = 1 + 2\nlet y = \"hi\"").unwrap();
    for ins in &bp.instructions {
        assert!(ins.opcode_id < bp.opcode_table.len());
    }
    let load_const = bp.get_opcode("load_const").unwrap();
    for ins in &bp.instructions {
        if ins.opcode_id == load_const {
            assert_eq!(ins.operands.len(), 1);
            assert!(ins.operands[0] < bp.constants.len());
        }
    }
    for (i, c) in bp.constants.iter().enumerate() {
        assert_eq!(c.id, i);
    }
}

#[test]
fn test_grouping_is_transparent() {
    assert_eq!(parse_nodes("(1 + 2 * 3)"), parse_nodes("1 + 2 * 3"));
    assert_eq!(parse_nodes("((x))"), parse_nodes("x"));
    assert_eq!(parse_nodes("(a + b) * c"), parse_nodes("(((a + b)) * c)"));
}

#[test]
fn test_pipeline_compiles_as_call() {
    let piped = compile_source("func inc(x) { x + 1 }\n5 |> inc").unwrap();
    let called = compile_source("func inc(x) { x + 1 }\ninc(5)").unwrap();
    assert_eq!(piped, called);
}

#[test]
fn test_empty_input_parses_to_empty_program() {
    let lexer = Lexer::new("");
    let mut parser = Parser::new(lexer);
    let program = parser.parse_program();
    assert_eq!(program.nodes.len(), 0);
    assert!(!parser.had_error);
}

#[test]
fn test_whitespace_only_input_is_like_empty() {
    let lexer = Lexer::new("  \n \t \n ");
    let mut parser = Parser::new(lexer);
    let program = parser.parse_program();
    assert_eq!(program.nodes.len(), 0);
    assert!(!parser.had_error);
}

#[test]
fn test_trailing_commas_accepted() {
    assert!(compile_source("let a = [1, 2, 3,]").is_ok());
    assert!(compile_source("let s = { a = 1, b = 2, }").is_ok());
}

#[test]
fn test_pratt_precedence_ast() {
    let nodes = parse_nodes("1 + 2 * 3");
    assert_eq!(nodes.len(), 1);
    if let ASTNode::ExpressionStatement { expression } = &nodes[0] {
        if let ASTNode::Binary { op, left, right } = expression.as_ref() {
            assert_eq!(*op, BinaryOp::Add);
            assert!(matches!(
                left.as_ref(),
                ASTNode::Literal { value: LiteralValue::Number(_) }
            ));
            if let ASTNode::Binary { op: inner, .. } = right.as_ref() {
                assert_eq!(*inner, BinaryOp::Mul);
            } else {
                panic!("Expected multiplication on the right");
            }
        } else {
            panic!("Expected binary node");
        }
    } else {
        panic!("Expected expression statement");
    }
}

#[test]
fn test_comments_are_skipped() {
    let nodes = parse_nodes("// leading comment\nlet x = 1 /* inline */ + 2\n/* block\ncomment */ let y = 3");
    assert_eq!(nodes.len(), 2);
}

#[test]
fn test_invalid_number_is_a_lexical_error() {
    let lexer = Lexer::new("let x = 1.2.3");
    let mut parser = Parser::new(lexer);
    let _ = parser.parse_program();
    assert!(parser.had_error);
}

#[test]
fn test_duplicate_struct_fields_rejected() {
    assert!(compile_source("let s = { a = 1, a = 2 }").is_err());
    assert!(compile_source("let s = { a = 1, b = 2 }").is_ok());
}

#[test]
fn test_parser_recovers_and_reports_multiple_errors() {
    let lexer = Lexer::new("let = 1 ; let = 2");
    let mut parser = Parser::new(lexer);
    let _ = parser.parse_program();
    assert!(parser.had_error);
    assert!(parser.diagnostics.len() >= 2);
}

#[test]
fn test_diagnostics_name_expected_and_found_tokens() {
    let lexer = Lexer::new("let x 5");
    let mut parser = Parser::new(lexer);
    let _ = parser.parse_program();
    assert!(parser.had_error);
    assert!(
        parser.diagnostics[0].contains("Expected '='"),
        "got: {}",
        parser.diagnostics[0]
    );
    assert!(parser.diagnostics[0].contains("at line 1"));
}

#[test]
fn test_unicode_whitespace_is_skipped() {
    let tokens = tokenize("let\u{00a0}x\u{2003}=\u{3000}1");
    let kinds: Vec<TokenKind> = tokens.iter().map(|t| t.kind).collect();
    assert_eq!(
        kinds,
        vec![
            TokenKind::Let,
            TokenKind::Identifier,
            TokenKind::Equal,
            TokenKind::Number,
            TokenKind::Eof
        ]
    );
}

#[test]
fn test_parse_api_matches_had_error() {
    let mut ok_parser = Parser::new(Lexer::new("let x = 1"));
    assert!(ok_parser.parse().is_ok());
    let mut empty_parser = Parser::new(Lexer::new(""));
    let empty = empty_parser.parse().unwrap();
    assert_eq!(empty.nodes.len(), 0);
    let mut bad_parser = Parser::new(Lexer::new("let x ="));
    assert!(bad_parser.parse().is_err());
}
