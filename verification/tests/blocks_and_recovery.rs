//! Scenario tests for the block/statement disambiguator, the trailing
//! expression rule, recovery determinism, progress and marker balance,
//! and the token-set primitives.

use cst_parser::events::Event;
use cst_parser::grammar::atom;
use cst_parser::grammar::expressions;
use cst_parser::grammar::Restrictions;
use cst_parser::parser::Parser;
use cst_parser::syntax::{DiagKind, NodeKind, TokenKind};

fn parse_atom(tokens: Vec<TokenKind>) -> Parser {
    let mut p = Parser::new(tokens);
    let _ = atom::atom_expr(&mut p, Restrictions::none());
    p
}

fn begins(p: &Parser, kind: NodeKind) -> usize {
    let mut n = 0;
    for e in p.events.iter() {
        if let Event::Begin { kind: k } = e {
            if *k == kind {
                n += 1;
            }
        }
    }
    n
}

#[test]
fn trailing_expression_is_not_a_statement() {
    // `{ 1; 2 }`: one expression-statement and one trailing expression
    // re-parented into the block with no statement wrapper.
    let p = parse_atom(vec![
        TokenKind::LCurly,
        TokenKind::IntNumber,
        TokenKind::Semi,
        TokenKind::IntNumber,
        TokenKind::RCurly,
    ]);
    assert_eq!(
        p.events,
        vec![
            Event::Begin { kind: NodeKind::BlockExpr },
            Event::Leaf { token: TokenKind::LCurly },
            Event::Begin { kind: NodeKind::ExprStmt },
            Event::Begin { kind: NodeKind::Literal },
            Event::Leaf { token: TokenKind::IntNumber },
            Event::End,
            Event::Leaf { token: TokenKind::Semi },
            Event::End,
            Event::Begin { kind: NodeKind::Tombstone },
            Event::Begin { kind: NodeKind::Literal },
            Event::Leaf { token: TokenKind::IntNumber },
            Event::End,
            Event::Leaf { token: TokenKind::RCurly },
            Event::End,
        ]
    );
    assert!(p.diagnostics.is_empty());
    assert!(p.open_markers.is_empty());
}

#[test]
fn terminated_expressions_are_statements() {
    // `{ 1; 2; }`: two expression-statements and no trailing expression.
    let p = parse_atom(vec![
        TokenKind::LCurly,
        TokenKind::IntNumber,
        TokenKind::Semi,
        TokenKind::IntNumber,
        TokenKind::Semi,
        TokenKind::RCurly,
    ]);
    assert_eq!(
        p.events,
        vec![
            Event::Begin { kind: NodeKind::BlockExpr },
            Event::Leaf { token: TokenKind::LCurly },
            Event::Begin { kind: NodeKind::ExprStmt },
            Event::Begin { kind: NodeKind::Literal },
            Event::Leaf { token: TokenKind::IntNumber },
            Event::End,
            Event::Leaf { token: TokenKind::Semi },
            Event::End,
            Event::Begin { kind: NodeKind::ExprStmt },
            Event::Begin { kind: NodeKind::Literal },
            Event::Leaf { token: TokenKind::IntNumber },
            Event::End,
            Event::Leaf { token: TokenKind::Semi },
            Event::End,
            Event::Leaf { token: TokenKind::RCurly },
            Event::End,
        ]
    );
    assert!(p.diagnostics.is_empty());
    assert!(p.open_markers.is_empty());
}

#[test]
fn let_statements() {
    // `{ let a; let b: i32; let c = 92; let d: i32 = 92; }`
    let p = parse_atom(vec![
        TokenKind::LCurly,
        TokenKind::LetKw,
        TokenKind::Ident,
        TokenKind::Semi,
        TokenKind::LetKw,
        TokenKind::Ident,
        TokenKind::Colon,
        TokenKind::Ident,
        TokenKind::Semi,
        TokenKind::LetKw,
        TokenKind::Ident,
        TokenKind::EqSign,
        TokenKind::IntNumber,
        TokenKind::Semi,
        TokenKind::LetKw,
        TokenKind::Ident,
        TokenKind::Colon,
        TokenKind::Ident,
        TokenKind::EqSign,
        TokenKind::IntNumber,
        TokenKind::Semi,
        TokenKind::RCurly,
    ]);
    assert_eq!(begins(&p, NodeKind::LetStmt), 4);
    assert_eq!(begins(&p, NodeKind::TypeRef), 2);
    assert_eq!(begins(&p, NodeKind::BindPat), 4);
    assert!(p.diagnostics.is_empty());
    assert!(p.open_markers.is_empty());
}

#[test]
fn nested_declaration_in_block() {
    // `{ fn b() {} }`
    let p = parse_atom(vec![
        TokenKind::LCurly,
        TokenKind::FnKw,
        TokenKind::Ident,
        TokenKind::LParen,
        TokenKind::RParen,
        TokenKind::LCurly,
        TokenKind::RCurly,
        TokenKind::RCurly,
    ]);
    assert_eq!(begins(&p, NodeKind::FnDef), 1);
    assert_eq!(begins(&p, NodeKind::BlockExpr), 2);
    assert!(p.diagnostics.is_empty());
    assert!(p.open_markers.is_empty());
}

#[test]
fn dangling_pub_modifier_is_tolerated() {
    // `{ pub 92; }`: the stray modifier raises one diagnostic, its token is
    // kept in the tree, and the expression-statement after it still parses.
    let p = parse_atom(vec![
        TokenKind::LCurly,
        TokenKind::PubKw,
        TokenKind::IntNumber,
        TokenKind::Semi,
        TokenKind::RCurly,
    ]);
    assert_eq!(p.diagnostics.len(), 1);
    assert_eq!(p.diagnostics[0].kind, DiagKind::ExpectedItem);
    assert_eq!(p.diagnostics[0].pos, 2);
    assert_eq!(begins(&p, NodeKind::ExprStmt), 1);
    // No token was dropped: the `pub` leaf is in the event stream.
    assert!(p.events.contains(&Event::Leaf { token: TokenKind::PubKw }));
    assert_eq!(p.pos, 5);
    assert!(p.open_markers.is_empty());
}

#[test]
fn missing_closing_brace_reported_once() {
    // `{ 1` — the closing brace is required and reported, but parsing
    // terminates and still produces the block node.
    let p = parse_atom(vec![TokenKind::LCurly, TokenKind::IntNumber]);
    assert_eq!(begins(&p, NodeKind::BlockExpr), 1);
    assert_eq!(p.diagnostics.len(), 1);
    assert_eq!(p.diagnostics[0].kind, DiagKind::ExpectedToken(TokenKind::RCurly));
    assert_eq!(p.pos, 2);
    assert!(p.open_markers.is_empty());
}

#[test]
fn recovery_exactly_one_diagnostic_one_token() {
    // A stray closing bracket at expression position: exactly one
    // diagnostic, exactly one consumed token, control returned.
    let mut p = Parser::new(vec![TokenKind::RBrack, TokenKind::IntNumber]);
    let res = atom::atom_expr(&mut p, Restrictions::none());
    assert!(res.is_none());
    assert_eq!(p.pos, 1);
    assert_eq!(p.diagnostics.len(), 1);
    assert_eq!(p.diagnostics[0].kind, DiagKind::ExpectedExpression);
    assert_eq!(p.diagnostics[0].pos, 0);
    assert_eq!(p.events, vec![Event::Leaf { token: TokenKind::RBrack }]);
    // The caller can continue: the next dispatch parses the literal.
    let res2 = atom::atom_expr(&mut p, Restrictions::none());
    assert!(res2.is_some());
    assert_eq!(p.pos, 2);
    assert_eq!(p.diagnostics.len(), 1);
}

#[test]
fn progress_on_arbitrary_garbage() {
    // Every dispatcher call on a non-empty remainder consumes at least one
    // token, so a driving loop terminates.
    let garbage = vec![
        TokenKind::RBrack,
        TokenKind::RParen,
        TokenKind::Comma,
        TokenKind::FatArrow,
        TokenKind::ElseKw,
    ];
    let total = garbage.len();
    let mut p = Parser::new(garbage);
    let mut rounds = 0;
    while !p.at_end() {
        let before = p.pos;
        let _ = atom::atom_expr(&mut p, Restrictions::none());
        assert!(p.pos > before);
        rounds += 1;
        assert!(rounds <= total);
    }
    assert_eq!(p.diagnostics.len(), total);
    assert!(p.open_markers.is_empty());
}

#[test]
fn dispatcher_at_end_of_stream_only_reports() {
    let mut p = Parser::new(vec![]);
    let res = atom::atom_expr(&mut p, Restrictions::none());
    assert!(res.is_none());
    assert_eq!(p.pos, 0);
    assert!(p.events.is_empty());
    assert_eq!(p.diagnostics.len(), 1);
}

#[test]
fn recovery_inside_block_keeps_the_token() {
    // `{ ] 1; }`: the stray token is attached to the block, one diagnostic
    // is raised, and the statement after it still parses.
    let p = parse_atom(vec![
        TokenKind::LCurly,
        TokenKind::RBrack,
        TokenKind::IntNumber,
        TokenKind::Semi,
        TokenKind::RCurly,
    ]);
    assert_eq!(p.diagnostics.len(), 1);
    assert_eq!(p.diagnostics[0].kind, DiagKind::ExpectedExpression);
    assert!(p.events.contains(&Event::Leaf { token: TokenKind::RBrack }));
    assert_eq!(begins(&p, NodeKind::ExprStmt), 1);
    assert_eq!(p.pos, 5);
    assert!(p.open_markers.is_empty());
}

#[test]
fn required_block_missing_reports_and_stays() {
    // `if true true`: the body block is missing; it is reported and the
    // cursor does not move past the condition.
    let p = parse_atom(vec![TokenKind::IfKw, TokenKind::TrueKw, TokenKind::TrueKw]);
    assert!(p
        .diagnostics
        .iter()
        .any(|d| d.kind == DiagKind::ExpectedBlock));
    assert_eq!(begins(&p, NodeKind::IfExpr), 1);
}

#[test]
fn marker_stack_balanced_on_every_outcome() {
    let streams = vec![
        vec![TokenKind::IntNumber],
        vec![TokenKind::RBrack],
        vec![TokenKind::LCurly, TokenKind::PubKw, TokenKind::RCurly],
        vec![TokenKind::MatchKw, TokenKind::LCurly, TokenKind::RCurly],
        vec![TokenKind::Pipe, TokenKind::Ident],
        vec![],
    ];
    for toks in streams {
        let p = parse_atom(toks);
        assert!(p.open_markers.is_empty());
    }
}

#[test]
fn no_token_dropped_or_reordered() {
    // The leaves of the event stream are exactly the consumed tokens, in
    // order, even across recovery and abandoned markers.
    let tokens = vec![
        TokenKind::LCurly,
        TokenKind::PubKw,
        TokenKind::RBrack,
        TokenKind::IntNumber,
        TokenKind::Semi,
        TokenKind::IntNumber,
        TokenKind::RCurly,
    ];
    let p = parse_atom(tokens.clone());
    let leaves: Vec<TokenKind> = p
        .events
        .iter()
        .filter_map(|e| {
            if let Event::Leaf { token } = e {
                Some(*token)
            } else {
                None
            }
        })
        .collect();
    assert_eq!(leaves, tokens[..p.pos].to_vec());
    assert_eq!(p.pos, tokens.len());
}

#[test]
fn expression_entry_points_agree_with_dispatcher() {
    let mut p = Parser::new(vec![TokenKind::IntNumber]);
    let res = expressions::expr(&mut p);
    assert!(res.is_some());
    assert_eq!(p.pos, 1);

    let mut q = Parser::new(vec![TokenKind::Ident, TokenKind::LCurly, TokenKind::RCurly]);
    let res = expressions::expr_no_struct(&mut q);
    let c = res.expect("a path is an expression");
    assert_eq!(c.kind, NodeKind::PathExpr);
    assert_eq!(q.pos, 1);
}

#[test]
fn token_set_membership_and_union() {
    let lit = atom::literal_first();
    assert!(lit.contains(TokenKind::TrueKw));
    assert!(lit.contains(TokenKind::RawByteStrLit));
    assert!(!lit.contains(TokenKind::Ident));
    assert!(!lit.contains(TokenKind::Eof));

    let all = atom::atom_expr_first();
    assert!(all.contains(TokenKind::TrueKw));
    assert!(all.contains(TokenKind::Ident));
    assert!(all.contains(TokenKind::ReturnKw));
    assert!(!all.contains(TokenKind::RParen));
    assert!(!all.contains(TokenKind::Semi));

    let joined = lit.union(all);
    assert!(joined.contains(TokenKind::LCurly));
    assert!(!joined.contains(TokenKind::Comma));
}

#[test]
fn cursor_primitives() {
    let mut p = Parser::new(vec![TokenKind::IfKw, TokenKind::Ident]);
    assert_eq!(p.current(), TokenKind::IfKw);
    assert_eq!(p.nth(0), TokenKind::IfKw);
    assert_eq!(p.nth(1), TokenKind::Ident);
    assert_eq!(p.nth(2), TokenKind::Eof);
    assert!(p.at(TokenKind::IfKw));
    assert!(!p.at_end());
    assert!(!p.eat(TokenKind::Ident));
    assert_eq!(p.pos, 0);
    assert!(p.eat(TokenKind::IfKw));
    assert_eq!(p.pos, 1);
    assert!(!p.expect(TokenKind::Semi));
    assert_eq!(p.diagnostics.len(), 1);
    assert_eq!(p.diagnostics[0].kind, DiagKind::ExpectedToken(TokenKind::Semi));
    p.bump();
    assert!(p.at_end());
    assert_eq!(p.current(), TokenKind::Eof);
}
