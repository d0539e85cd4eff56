//! Scenario tests for the expression dispatcher and its sub-grammars.

use cst_parser::events::Event;
use cst_parser::grammar::atom;
use cst_parser::grammar::Restrictions;
use cst_parser::parser::Parser;
use cst_parser::syntax::{DiagKind, NodeKind, TokenKind};

fn parse_atom(tokens: Vec<TokenKind>) -> Parser {
    let mut p = Parser::new(tokens);
    let _ = atom::atom_expr(&mut p, Restrictions::none());
    p
}

fn begins(p: &Parser, kind: NodeKind) -> usize {
    let mut n = 0;
    for e in p.events.iter() {
        if let Event::Begin { kind: k } = e {
            if *k == kind {
                n += 1;
            }
        }
    }
    n
}

#[test]
fn literal_each_kind() {
    let kinds = vec![
        TokenKind::TrueKw,
        TokenKind::FalseKw,
        TokenKind::IntNumber,
        TokenKind::FloatNumber,
        TokenKind::ByteLit,
        TokenKind::CharLit,
        TokenKind::StrLit,
        TokenKind::RawStrLit,
        TokenKind::ByteStrLit,
        TokenKind::RawByteStrLit,
    ];
    for k in kinds {
        let mut p = Parser::new(vec![k]);
        let res = atom::literal(&mut p);
        let c = res.expect("a literal token must produce a literal node");
        assert_eq!(c.kind, NodeKind::Literal);
        assert_eq!(p.pos, 1);
        assert_eq!(
            p.events,
            vec![
                Event::Begin { kind: NodeKind::Literal },
                Event::Leaf { token: k },
                Event::End,
            ]
        );
        assert!(p.open_markers.is_empty());
        assert!(p.diagnostics.is_empty());
    }
}

#[test]
fn literal_refuses_other_tokens() {
    let mut p = Parser::new(vec![TokenKind::Ident]);
    assert!(atom::literal(&mut p).is_none());
    assert_eq!(p.pos, 0);
    assert!(p.events.is_empty());
    assert!(p.diagnostics.is_empty());
}

#[test]
fn unit_tuple() {
    let p = parse_atom(vec![TokenKind::LParen, TokenKind::RParen]);
    assert_eq!(begins(&p, NodeKind::TupleExpr), 1);
    assert_eq!(p.pos, 2);
    assert!(p.diagnostics.is_empty());
    assert!(p.open_markers.is_empty());
}

#[test]
fn path_expression() {
    let p = parse_atom(vec![TokenKind::Ident, TokenKind::ColonColon, TokenKind::Ident]);
    assert_eq!(begins(&p, NodeKind::PathExpr), 1);
    assert_eq!(p.pos, 3);
    assert!(p.diagnostics.is_empty());
}

#[test]
fn no_struct_literal_in_condition() {
    // `if S {}`: the `{` opens the body block, not a structure literal.
    let p = parse_atom(vec![
        TokenKind::IfKw,
        TokenKind::Ident,
        TokenKind::LCurly,
        TokenKind::RCurly,
    ]);
    assert_eq!(begins(&p, NodeKind::IfExpr), 1);
    assert_eq!(begins(&p, NodeKind::PathExpr), 1);
    assert_eq!(begins(&p, NodeKind::StructLit), 0);
    assert_eq!(begins(&p, NodeKind::BlockExpr), 1);
    assert!(p.diagnostics.is_empty());
    assert!(p.open_markers.is_empty());
}

#[test]
fn struct_literal_in_parenthesized_condition() {
    // `if (S {}) {}`: inside the parentheses the restriction is reset, so
    // `S { }` is a structure literal; the final `{}` is the body block.
    let p = parse_atom(vec![
        TokenKind::IfKw,
        TokenKind::LParen,
        TokenKind::Ident,
        TokenKind::LCurly,
        TokenKind::RCurly,
        TokenKind::RParen,
        TokenKind::LCurly,
        TokenKind::RCurly,
    ]);
    assert_eq!(begins(&p, NodeKind::IfExpr), 1);
    assert_eq!(begins(&p, NodeKind::StructLit), 1);
    assert_eq!(begins(&p, NodeKind::TupleExpr), 1);
    assert_eq!(begins(&p, NodeKind::BlockExpr), 1);
    assert_eq!(begins(&p, NodeKind::PathExpr), 0);
    assert!(p.diagnostics.is_empty());
    assert!(p.open_markers.is_empty());
}

#[test]
fn lambda_return_type_forces_block_body() {
    // `|| -> i32 { 92 }`
    let p = parse_atom(vec![
        TokenKind::Pipe,
        TokenKind::Pipe,
        TokenKind::ThinArrow,
        TokenKind::Ident,
        TokenKind::LCurly,
        TokenKind::IntNumber,
        TokenKind::RCurly,
    ]);
    assert_eq!(begins(&p, NodeKind::LambdaExpr), 1);
    assert_eq!(begins(&p, NodeKind::RetType), 1);
    assert_eq!(begins(&p, NodeKind::BlockExpr), 1);
    assert!(p.diagnostics.is_empty());
    assert!(p.open_markers.is_empty());
}

#[test]
fn lambda_without_return_type_takes_bare_expression() {
    // `|x| x`
    let p = parse_atom(vec![
        TokenKind::Pipe,
        TokenKind::Ident,
        TokenKind::Pipe,
        TokenKind::Ident,
    ]);
    assert_eq!(begins(&p, NodeKind::LambdaExpr), 1);
    assert_eq!(begins(&p, NodeKind::BlockExpr), 0);
    assert_eq!(begins(&p, NodeKind::RetType), 0);
    assert_eq!(begins(&p, NodeKind::BindPat), 1);
    assert_eq!(begins(&p, NodeKind::PathExpr), 1);
    assert!(p.diagnostics.is_empty());
}

#[test]
fn move_lambda_with_typed_param_and_trailing_comma() {
    // `move |x: i32,| x`
    let p = parse_atom(vec![
        TokenKind::MoveKw,
        TokenKind::Pipe,
        TokenKind::Ident,
        TokenKind::Colon,
        TokenKind::Ident,
        TokenKind::Comma,
        TokenKind::Pipe,
        TokenKind::Ident,
    ]);
    assert_eq!(begins(&p, NodeKind::LambdaExpr), 1);
    assert_eq!(begins(&p, NodeKind::ParamList), 1);
    assert_eq!(begins(&p, NodeKind::Param), 1);
    assert_eq!(begins(&p, NodeKind::TypeRef), 1);
    assert!(p.diagnostics.is_empty());
    assert!(p.open_markers.is_empty());
}

#[test]
fn match_arm_alternation_and_guard() {
    // `match () { X | Y if Z => () }`
    let p = parse_atom(vec![
        TokenKind::MatchKw,
        TokenKind::LParen,
        TokenKind::RParen,
        TokenKind::LCurly,
        TokenKind::Ident,
        TokenKind::Pipe,
        TokenKind::Ident,
        TokenKind::IfKw,
        TokenKind::Ident,
        TokenKind::FatArrow,
        TokenKind::LParen,
        TokenKind::RParen,
        TokenKind::RCurly,
    ]);
    assert_eq!(begins(&p, NodeKind::MatchExpr), 1);
    assert_eq!(begins(&p, NodeKind::MatchArm), 1);
    assert_eq!(begins(&p, NodeKind::BindPat), 2);
    assert_eq!(begins(&p, NodeKind::IfExpr), 0);
    assert!(p.diagnostics.is_empty());
    assert!(p.open_markers.is_empty());
}

#[test]
fn match_missing_comma_between_arms() {
    // `match () { X => () Y => () }`
    let p = parse_atom(vec![
        TokenKind::MatchKw,
        TokenKind::LParen,
        TokenKind::RParen,
        TokenKind::LCurly,
        TokenKind::Ident,
        TokenKind::FatArrow,
        TokenKind::LParen,
        TokenKind::RParen,
        TokenKind::Ident,
        TokenKind::FatArrow,
        TokenKind::LParen,
        TokenKind::RParen,
        TokenKind::RCurly,
    ]);
    assert_eq!(begins(&p, NodeKind::MatchArm), 2);
    assert_eq!(p.diagnostics.len(), 1);
    assert_eq!(p.diagnostics[0].kind, DiagKind::ExpectedToken(TokenKind::Comma));
    assert!(p.open_markers.is_empty());
}

#[test]
fn empty_match() {
    // `match () { }`
    let p = parse_atom(vec![
        TokenKind::MatchKw,
        TokenKind::LParen,
        TokenKind::RParen,
        TokenKind::LCurly,
        TokenKind::RCurly,
    ]);
    assert_eq!(begins(&p, NodeKind::MatchExpr), 1);
    assert_eq!(begins(&p, NodeKind::MatchArm), 0);
    assert!(p.diagnostics.is_empty());
}

#[test]
fn if_else_if_else_chain() {
    // `if true {} else if false {} else {}`
    let p = parse_atom(vec![
        TokenKind::IfKw,
        TokenKind::TrueKw,
        TokenKind::LCurly,
        TokenKind::RCurly,
        TokenKind::ElseKw,
        TokenKind::IfKw,
        TokenKind::FalseKw,
        TokenKind::LCurly,
        TokenKind::RCurly,
        TokenKind::ElseKw,
        TokenKind::LCurly,
        TokenKind::RCurly,
    ]);
    assert_eq!(begins(&p, NodeKind::IfExpr), 2);
    assert_eq!(begins(&p, NodeKind::BlockExpr), 3);
    assert!(p.diagnostics.is_empty());
    assert!(p.open_markers.is_empty());
}

#[test]
fn unsafe_block_expression() {
    let p = parse_atom(vec![TokenKind::UnsafeKw, TokenKind::LCurly, TokenKind::RCurly]);
    assert_eq!(begins(&p, NodeKind::BlockExpr), 1);
    assert_eq!(p.pos, 3);
    assert!(p.diagnostics.is_empty());
}

#[test]
fn unsafe_without_block_recovers() {
    let mut p = Parser::new(vec![TokenKind::UnsafeKw, TokenKind::Semi]);
    let res = atom::atom_expr(&mut p, Restrictions::none());
    assert!(res.is_none());
    assert_eq!(p.pos, 1);
    assert_eq!(p.diagnostics.len(), 1);
    assert_eq!(p.diagnostics[0].kind, DiagKind::ExpectedExpression);
}

#[test]
fn bare_return_consumes_only_the_keyword() {
    let mut p = Parser::new(vec![TokenKind::ReturnKw, TokenKind::Semi]);
    let res = atom::atom_expr(&mut p, Restrictions::none());
    let c = res.expect("return must produce a node");
    assert_eq!(c.kind, NodeKind::ReturnExpr);
    assert_eq!(p.pos, 1);
    assert!(p.diagnostics.is_empty());
}

#[test]
fn return_with_value() {
    let p = parse_atom(vec![TokenKind::ReturnKw, TokenKind::IntNumber]);
    assert_eq!(begins(&p, NodeKind::ReturnExpr), 1);
    assert_eq!(begins(&p, NodeKind::Literal), 1);
    assert_eq!(p.pos, 2);
    assert!(p.diagnostics.is_empty());
}
