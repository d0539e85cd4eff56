//! The expression dispatcher (atom grammar): given the current token it
//! decides which concrete expression form to parse, or records a recovery
//! diagnostic and consumes exactly one token — the progress guarantee that
//! makes infinite loops on malformed input impossible.
//!
//! Each parse function's contract states its whole behaviour as a chain of
//! the parser-primitive relations (`bump_rel`, `expect_rel`, `start_rel`,
//! `complete_rel`, ...) through existentially quantified intermediate
//! states; the loops are chains of states, one per iteration.  Where the
//! grammar refers to itself — a sub-expression, a chained `else if`, a
//! nested declaration — the postconditions recurse, spending one unit of a
//! `fuel` depth parameter per dispatcher level; every parse function
//! guarantees its postcondition for every fuel, so the exact tree of any
//! concrete input follows from the contracts at a deep enough fuel.

use crate::events::Event;
use crate::grammar::items::MaybeItem;
use crate::grammar::{expressions, items, params, paths, patterns, types};
use crate::grammar::Restrictions;
use crate::parser::{
    abandon_rel, bump_rel, complete_rel, eat_rel, error_rel, expect_rel, extends,
    lemma_extends_frame, lemma_extends_trans, node_span, parse_step, same_state, start_rel,
    CompletedMarker, Parser,
};
use crate::syntax::{DiagKind, Diagnostic, NodeKind, TokenKind};
use crate::token_set::{tok_bit, TokenSet};
use vstd::prelude::*;

verus! {

/// The FIRST set of single-token literal expressions.
pub open spec fn literal_first_spec(k: TokenKind) -> bool {
    ||| k == TokenKind::TrueKw
    ||| k == TokenKind::FalseKw
    ||| k == TokenKind::IntNumber
    ||| k == TokenKind::FloatNumber
    ||| k == TokenKind::ByteLit
    ||| k == TokenKind::CharLit
    ||| k == TokenKind::StrLit
    ||| k == TokenKind::RawStrLit
    ||| k == TokenKind::ByteStrLit
    ||| k == TokenKind::RawByteStrLit
}

/// The non-literal part of the atom FIRST set.
pub open spec fn atom_extra_spec(k: TokenKind) -> bool {
    ||| k == TokenKind::LParen
    ||| k == TokenKind::Pipe
    ||| k == TokenKind::MoveKw
    ||| k == TokenKind::IfKw
    ||| k == TokenKind::MatchKw
    ||| k == TokenKind::UnsafeKw
    ||| k == TokenKind::LCurly
    ||| k == TokenKind::ReturnKw
    ||| k == TokenKind::Ident
    ||| k == TokenKind::SelfKw
    ||| k == TokenKind::SuperKw
    ||| k == TokenKind::ColonColon
}

/// The FIRST set of atom expressions: every token on which the dispatcher
/// produces a node rather than a recovery diagnostic.
pub open spec fn atom_first_spec(k: TokenKind) -> bool {
    literal_first_spec(k) || atom_extra_spec(k)
}

/// Every token bit is in mask range, and the two FIRST sets occupy the two
/// contiguous bit ranges the masks below describe.
proof fn lemma_bits_by_kind(k: TokenKind)
    ensures
        tok_bit(k) < 64,
        (tok_bit(k) < 10) == literal_first_spec(k),
        (10 <= tok_bit(k) && tok_bit(k) < 22) == atom_extra_spec(k),
{
    match k {
        TokenKind::TrueKw => {},
        TokenKind::FalseKw => {},
        TokenKind::IntNumber => {},
        TokenKind::FloatNumber => {},
        TokenKind::ByteLit => {},
        TokenKind::CharLit => {},
        TokenKind::StrLit => {},
        TokenKind::RawStrLit => {},
        TokenKind::ByteStrLit => {},
        TokenKind::RawByteStrLit => {},
        TokenKind::LParen => {},
        TokenKind::Pipe => {},
        TokenKind::MoveKw => {},
        TokenKind::IfKw => {},
        TokenKind::MatchKw => {},
        TokenKind::UnsafeKw => {},
        TokenKind::LCurly => {},
        TokenKind::ReturnKw => {},
        TokenKind::Ident => {},
        TokenKind::SelfKw => {},
        TokenKind::SuperKw => {},
        TokenKind::ColonColon => {},
        TokenKind::RParen => {},
        TokenKind::RCurly => {},
        TokenKind::RBrack => {},
        TokenKind::ElseKw => {},
        TokenKind::Comma => {},
        TokenKind::FatArrow => {},
        TokenKind::ThinArrow => {},
        TokenKind::LetKw => {},
        TokenKind::Colon => {},
        TokenKind::EqSign => {},
        TokenKind::Semi => {},
        TokenKind::Underscore => {},
        TokenKind::FnKw => {},
        TokenKind::PubKw => {},
        TokenKind::ErrorTok => {},
        TokenKind::Eof => {},
    }
}

proof fn lemma_literal_mask(s: u64)
    ensures
        s < 64 ==> ((((0x3ffu64 >> s) & 1u64) == 1u64) <==> s < 10),
{
    assert(s < 64 ==> ((((0x3ffu64 >> s) & 1u64) == 1u64) <==> s < 10)) by (bit_vector);
}

proof fn lemma_atom_extra_mask(s: u64)
    ensures
        s < 64 ==> ((((0x3ffc00u64 >> s) & 1u64) == 1u64) <==> (10 <= s && s < 22)),
{
    assert(s < 64 ==> ((((0x3ffc00u64 >> s) & 1u64) == 1u64) <==> (10 <= s && s < 22))) by (bit_vector);
}

/// The literal FIRST set as a token set.
pub fn literal_first() -> (r: TokenSet)
    ensures
        forall|k: TokenKind| #[trigger] r.has(k) == literal_first_spec(k),
{
    let r = TokenSet::from_mask(0x3ff);
    proof {
        assert forall|k: TokenKind| #[trigger] r.has(k) == literal_first_spec(k) by {
            lemma_bits_by_kind(k);
            lemma_literal_mask(tok_bit(k));
        }
    }
    r
}

/// The non-literal part of the atom FIRST set as a token set.
fn atom_extra_first() -> (r: TokenSet)
    ensures
        forall|k: TokenKind| #[trigger] r.has(k) == atom_extra_spec(k),
{
    let r = TokenSet::from_mask(0x3ffc00);
    proof {
        assert forall|k: TokenKind| #[trigger] r.has(k) == atom_extra_spec(k) by {
            lemma_bits_by_kind(k);
            lemma_atom_extra_mask(tok_bit(k));
        }
    }
    r
}

/// The atom FIRST set as a token set.
pub fn atom_expr_first() -> (r: TokenSet)
    ensures
        forall|k: TokenKind| #[trigger] r.has(k) == atom_first_spec(k),
{
    literal_first().union(atom_extra_first())
}

/// The frame every completed expression form shares: the state is extended,
/// tokens were consumed, and the node begun at the entry position of the
/// event stream carries the form's kind.
pub open spec fn node_frame(pre: Parser, post: Parser, c: CompletedMarker, kind: NodeKind) -> bool {
    &&& parse_step(pre, post)
    &&& post.cursor() > pre.cursor()
    &&& pre.evs().len() < post.evs().len()
    &&& c.kind == kind
    &&& c.index == pre.evs().len()
    &&& post.evs()[c.index as int] == (Event::Begin { kind })
}

/// The dispatcher's outcome table: which outcome comes on which current
/// token, with the literal branch and both failure branches pinned exactly.
/// The structure of the composite forms is carried by `atom_full`.
pub open spec fn atom_step(pre: Parser, post: Parser, forbid: bool, res: Option<
    CompletedMarker,
>) -> bool {
    &&& parse_step(pre, post)
    &&& !pre.at_eof() ==> post.cursor() > pre.cursor()
    &&& res is Some ==> post.cursor() > pre.cursor()
    &&& pre.at_eof() ==> res is None && post.cursor() == pre.cursor() && post.evs() == pre.evs()
        && post.diags() == pre.diags().push(
        (Diagnostic { kind: DiagKind::ExpectedExpression, pos: pre.pos }),
    )
    &&& literal_first_spec(pre.cur()) ==> (res matches Some(c) && c.kind == NodeKind::Literal)
        && post.cursor() == pre.cursor() + 1 && post.diags() == pre.diags() && post.evs()
        == pre.evs() + seq![
        (Event::Begin { kind: NodeKind::Literal }),
        (Event::Leaf { token: pre.cur() }),
        Event::End,
    ]
    &&& !literal_first_spec(pre.cur()) && paths::path_start_spec(pre.cur()) ==> (res matches Some(
        c,
    ) && (c.kind == NodeKind::PathExpr || c.kind == NodeKind::StructLit) && (forbid ==> c.kind
        == NodeKind::PathExpr))
    &&& pre.cur() == TokenKind::LParen ==> (res matches Some(c) && c.kind == NodeKind::TupleExpr)
    &&& pre.cur() == TokenKind::Pipe ==> (res matches Some(c) && c.kind == NodeKind::LambdaExpr)
    &&& pre.cur() == TokenKind::MoveKw && pre.peek(1) == TokenKind::Pipe ==> (res matches Some(c)
        && c.kind == NodeKind::LambdaExpr)
    &&& pre.cur() == TokenKind::IfKw ==> (res matches Some(c) && c.kind == NodeKind::IfExpr)
    &&& pre.cur() == TokenKind::MatchKw ==> (res matches Some(c) && c.kind == NodeKind::MatchExpr)
    &&& pre.cur() == TokenKind::LCurly ==> (res matches Some(c) && c.kind == NodeKind::BlockExpr)
    &&& pre.cur() == TokenKind::UnsafeKw && pre.peek(1) == TokenKind::LCurly ==> (res matches Some(
        c,
    ) && c.kind == NodeKind::BlockExpr)
    &&& pre.cur() == TokenKind::ReturnKw ==> (res matches Some(c) && c.kind
        == NodeKind::ReturnExpr)
    &&& !pre.at_eof() && !atom_first_spec(pre.cur()) ==> res is None && post.cursor()
        == pre.cursor() + 1 && post.evs() == pre.evs().push((Event::Leaf { token: pre.cur() }))
        && post.diags() == pre.diags().push(
        (Diagnostic { kind: DiagKind::ExpectedExpression, pos: pre.pos }),
    )
    &&& pre.cur() == TokenKind::MoveKw && pre.peek(1) != TokenKind::Pipe ==> res is None
        && post.cursor() == pre.cursor() + 1 && post.evs() == pre.evs().push(
        (Event::Leaf { token: pre.cur() }),
    ) && post.diags() == pre.diags().push(
        (Diagnostic { kind: DiagKind::ExpectedExpression, pos: pre.pos }),
    )
    &&& pre.cur() == TokenKind::UnsafeKw && pre.peek(1) != TokenKind::LCurly ==> res is None
        && post.cursor() == pre.cursor() + 1 && post.evs() == pre.evs().push(
        (Event::Leaf { token: pre.cur() }),
    ) && post.diags() == pre.diags().push(
        (Diagnostic { kind: DiagKind::ExpectedExpression, pos: pre.pos }),
    )
}

/// The dispatcher's whole contract at recursion depth `fuel`: the outcome
/// table of `atom_step`, plus, for each token that selects a composite
/// form, that form's own step-by-step description one fuel level down.
pub open spec fn atom_full(pre: Parser, post: Parser, forbid: bool, res: Option<
    CompletedMarker,
>, fuel: nat) -> bool
    decreases fuel, 0int,
{
    &&& atom_step(pre, post, forbid, res)
    &&& !literal_first_spec(pre.cur()) && paths::path_start_spec(pre.cur()) ==> (res matches Some(
        c,
    ) && paths::path_post(pre, post, forbid, c))
    &&& fuel > 0 && pre.cur() == TokenKind::LParen ==> (res matches Some(c) && tuple_post(
        pre,
        post,
        c,
        (fuel - 1) as nat,
    ))
    &&& fuel > 0 && (pre.cur() == TokenKind::Pipe || (pre.cur() == TokenKind::MoveKw && pre.peek(1)
        == TokenKind::Pipe)) ==> (res matches Some(c) && lambda_post(
        pre,
        post,
        c,
        (fuel - 1) as nat,
    ))
    &&& fuel > 0 && pre.cur() == TokenKind::IfKw ==> (res matches Some(c) && if_post(
        pre,
        post,
        c,
        (fuel - 1) as nat,
    ))
    &&& fuel > 0 && pre.cur() == TokenKind::MatchKw ==> (res matches Some(c) && match_post(
        pre,
        post,
        c,
        (fuel - 1) as nat,
    ))
    &&& fuel > 0 && (pre.cur() == TokenKind::LCurly || (pre.cur() == TokenKind::UnsafeKw
        && pre.peek(1) == TokenKind::LCurly)) ==> (res matches Some(c) && block_expr_post(
        pre,
        post,
        c,
        (fuel - 1) as nat,
    ))
    &&& fuel > 0 && pre.cur() == TokenKind::ReturnKw ==> (res matches Some(c) && return_post(
        pre,
        post,
        c,
        (fuel - 1) as nat,
    ))
}

/// An expression span at recursion depth `fuel`: what one call into the
/// expression grammar does.  Used at every sub-expression position of the
/// composite forms.
pub open spec fn expr_step(pre: Parser, post: Parser, forbid: bool, fuel: nat) -> bool
    decreases fuel, 1int,
{
    exists|res: Option<CompletedMarker>|
        #[trigger] atom_step(pre, post, forbid, res) && atom_full(pre, post, forbid, res, fuel)
}

/// Introduction lemma: a dispatcher outcome witnesses an expression span.
pub proof fn lemma_expr_step_intro(
    pre: Parser,
    post: Parser,
    forbid: bool,
    res: Option<CompletedMarker>,
    fuel: nat,
)
    requires
        atom_full(pre, post, forbid, res, fuel),
    ensures
        expr_step(pre, post, forbid, fuel),
{
    assert(atom_step(pre, post, forbid, res));
    assert(expr_step(pre, post, forbid, fuel));
}

/// What one `if_head` call does: the `if` keyword, then the condition
/// expression parsed with structure literals forbidden.  The caller's own
/// restrictions are not otherwise disturbed: the restriction value lives
/// only in this sub-parse.
pub open spec fn head_post(pre: Parser, post: Parser, fuel: nat) -> bool
    decreases fuel, 2int,
{
    &&& parse_step(pre, post)
    &&& post.cursor() > pre.cursor()
    &&& exists|q: Parser| #[trigger] bump_rel(pre, q) && expr_step(q, post, true, fuel)
}

/// `tuple_expr` step by step.
pub open spec fn tuple_body(
    pre: Parser,
    post: Parser,
    q1: Parser,
    q2: Parser,
    q3: Parser,
    q4: Parser,
    fuel: nat,
) -> bool
    decreases fuel, 3int,
{
    &&& start_rel(pre, q1)
    &&& expect_rel(q1, q2, TokenKind::LParen)
    &&& if q2.cur() != TokenKind::RParen {
        expr_step(q2, q3, false, fuel)
    } else {
        q3 == q2
    }
    &&& expect_rel(q3, q4, TokenKind::RParen)
    &&& complete_rel(q4, post, pre.evs().len() as int, NodeKind::TupleExpr)
}

/// What one `tuple_expr` call does: `(`, an inner expression (parsed with
/// the default restrictions, so a structure literal is legal again inside
/// the parentheses) unless `)` is next, then the expected `)`.
pub open spec fn tuple_post(pre: Parser, post: Parser, c: CompletedMarker, fuel: nat) -> bool
    decreases fuel, 4int,
{
    &&& node_frame(pre, post, c, NodeKind::TupleExpr)
    &&& exists|q1: Parser, q2: Parser, q3: Parser, q4: Parser|
        #![trigger start_rel(pre, q1), expect_rel(q1, q2, TokenKind::LParen), expect_rel(
            q3,
            q4,
            TokenKind::RParen,
        )]
        tuple_body(pre, post, q1, q2, q3, q4, fuel)
}

/// `lambda_expr` step by step.
pub open spec fn lambda_body(
    pre: Parser,
    post: Parser,
    q1: Parser,
    q2: Parser,
    q3: Parser,
    q4: Parser,
    q5: Parser,
    rt: bool,
    fuel: nat,
) -> bool
    decreases fuel, 11int,
{
    &&& start_rel(pre, q1)
    &&& eat_rel(q1, q2, TokenKind::MoveKw)
    &&& params::param_list_post(q2, q3)
    &&& types::ret_type_post(q3, q4, rt)
    &&& if rt {
        expressions::block_post(q4, q5, fuel)
    } else {
        expr_step(q4, q5, false, fuel)
    }
    &&& complete_rel(q5, post, pre.evs().len() as int, NodeKind::LambdaExpr)
}

/// What one `lambda_expr` call does: `move` eaten iff present, the
/// parameter list, an optional return type, and then a block body exactly
/// when a return type was parsed, else one bare expression body.
pub open spec fn lambda_post(pre: Parser, post: Parser, c: CompletedMarker, fuel: nat) -> bool
    decreases fuel, 12int,
{
    &&& node_frame(pre, post, c, NodeKind::LambdaExpr)
    &&& exists|q1: Parser, q2: Parser, q3: Parser, q4: Parser, q5: Parser, rt: bool|
        #![trigger start_rel(pre, q1), eat_rel(q1, q2, TokenKind::MoveKw), types::ret_type_post(
            q3,
            q4,
            rt,
        ), complete_rel(q5, post, pre.evs().len() as int, NodeKind::LambdaExpr)]
        lambda_body(pre, post, q1, q2, q3, q4, q5, rt, fuel)
}

/// A chained conditional spanning from `qa` to `q4`, described at depth
/// `f1`: some completed marker satisfies the conditional's whole contract.
pub open spec fn if_span_at(qa: Parser, q4: Parser, f1: nat) -> bool
    decreases f1, 14int,
{
    exists|cc: CompletedMarker|
        #[trigger] node_frame(qa, q4, cc, NodeKind::IfExpr) && if_post(qa, q4, cc, f1)
}

/// The else part of a conditional: nothing, or `else` followed by a block
/// or by a chained conditional (described one fuel level down, with its
/// node span stated at every fuel).
pub open spec fn else_step(q3: Parser, q4: Parser, fuel: nat) -> bool
    decreases fuel, 11int,
{
    if q3.cur() == TokenKind::ElseKw {
        exists|qa: Parser|
            #[trigger] bump_rel(q3, qa) && (if qa.cur() == TokenKind::IfKw {
                node_span(qa, q4, NodeKind::IfExpr) && (fuel > 0 ==> if_span_at(
                    qa,
                    q4,
                    (fuel - 1) as nat,
                ))
            } else {
                expressions::block_post(qa, q4, fuel)
            })
    } else {
        q4 == q3
    }
}

/// `if_expr` step by step.
pub open spec fn if_body(
    pre: Parser,
    post: Parser,
    q1: Parser,
    q2: Parser,
    q3: Parser,
    q4: Parser,
    fuel: nat,
) -> bool
    decreases fuel, 12int,
{
    &&& start_rel(pre, q1)
    &&& head_post(q1, q2, fuel)
    &&& extends(q1, q2)
    &&& expressions::block_post(q2, q3, fuel)
    &&& extends(q2, q3)
    &&& else_step(q3, q4, fuel)
    &&& complete_rel(q4, post, pre.evs().len() as int, NodeKind::IfExpr)
}

/// What one `if_expr` call does: the head (keyword plus restricted
/// condition), the body block, and — exactly when `else` follows — either a
/// chained conditional or an else block.
pub open spec fn if_post(pre: Parser, post: Parser, c: CompletedMarker, fuel: nat) -> bool
    decreases fuel, 13int,
{
    &&& node_frame(pre, post, c, NodeKind::IfExpr)
    &&& exists|q1: Parser, q2: Parser, q3: Parser, q4: Parser|
        #![trigger start_rel(pre, q1), extends(q1, q2), extends(q2, q3), complete_rel(
            q4,
            post,
            pre.evs().len() as int,
            NodeKind::IfExpr,
        )]
        if_body(pre, post, q1, q2, q3, q4, fuel)
}

/// One step of the pattern-alternation loop: `|` then the next pattern.
pub open spec fn alt_step_rel(a: Parser, b: Parser) -> bool {
    &&& a.cur() == TokenKind::Pipe
    &&& exists|q: Parser| bump_rel(a, q) && patterns::pattern_post(q, b)
}

/// The pattern-alternation loop as a chain of states, one per iteration.
pub open spec fn alts_chain(ch: Seq<Parser>) -> bool {
    forall|i: int| 0 <= i < ch.len() - 1 ==> alt_step_rel(#[trigger] ch[i], ch[i + 1])
}

/// `match_arm` step by step.
pub open spec fn arm_body(
    pre: Parser,
    post: Parser,
    q1: Parser,
    q2: Parser,
    ch: Seq<Parser>,
    q3: Parser,
    q4: Parser,
    q5: Parser,
    fuel: nat,
) -> bool
    decreases fuel, 3int,
{
    &&& start_rel(pre, q1)
    &&& patterns::pattern_post(q1, q2)
    &&& ch.len() >= 1 && ch.first() == q2 && alts_chain(ch)
    &&& ch.last().cur() != TokenKind::Pipe
    &&& if ch.last().cur() == TokenKind::IfKw {
        head_post(ch.last(), q3, fuel)
    } else {
        q3 == ch.last()
    }
    &&& expect_rel(q3, q4, TokenKind::FatArrow)
    &&& expr_step(q4, q5, false, fuel)
    &&& complete_rel(q5, post, pre.evs().len() as int, NodeKind::MatchArm)
}

/// What one `match_arm` call does: one or more alternated patterns joined
/// by `|`, a guard (restricted as a conditional head) exactly when `if`
/// follows the patterns, the expected `=>`, and the body expression.
pub open spec fn arm_post(pre: Parser, post: Parser, fuel: nat) -> bool
    decreases fuel, 4int,
{
    &&& parse_step(pre, post)
    &&& post.cursor() > pre.cursor()
    &&& pre.evs().len() < post.evs().len()
    &&& post.evs()[pre.evs().len() as int] == (Event::Begin { kind: NodeKind::MatchArm })
    &&& exists|q1: Parser, q2: Parser, ch: Seq<Parser>, q3: Parser, q4: Parser, q5: Parser|
        #![trigger start_rel(pre, q1), patterns::pattern_post(q1, q2), ch.len(), expect_rel(
            q3,
            q4,
            TokenKind::FatArrow,
        ), complete_rel(q5, post, pre.evs().len() as int, NodeKind::MatchArm)]
        arm_body(pre, post, q1, q2, ch, q3, q4, q5, fuel)
}

/// One step of the arm loop: an arm, then — unless `}` is next — an
/// expected comma.
pub open spec fn arm_step_rel(a: Parser, b: Parser, fuel: nat) -> bool
    decreases fuel, 5int,
{
    &&& !a.at_eof()
    &&& a.cur() != TokenKind::RCurly
    &&& exists|q: Parser|
        #[trigger] extends(a, q) && arm_post(a, q, fuel) && (if q.cur() != TokenKind::RCurly {
            expect_rel(q, b, TokenKind::Comma)
        } else {
            same_state(q, b)
        })
}

/// The arm loop as a chain of states, one per iteration.
pub open spec fn arms_chain(ch: Seq<Parser>, fuel: nat) -> bool
    decreases fuel, 6int,
{
    forall|i: int| 0 <= i < ch.len() - 1 ==> arm_step_rel(#[trigger] ch[i], ch[i + 1], fuel)
}

/// `match_expr` step by step.
pub open spec fn match_body(
    pre: Parser,
    post: Parser,
    q1: Parser,
    q2: Parser,
    q3: Parser,
    q3b: Parser,
    ch: Seq<Parser>,
    q4: Parser,
    fuel: nat,
) -> bool
    decreases fuel, 7int,
{
    &&& start_rel(pre, q1)
    &&& bump_rel(q1, q2)
    &&& expr_step(q2, q3, true, fuel)
    &&& extends(q2, q3)
    &&& eat_rel(q3, q3b, TokenKind::LCurly)
    &&& ch.len() >= 1 && ch.first() == q3b && arms_chain(ch, fuel)
    &&& ch.last().at_eof() || ch.last().cur() == TokenKind::RCurly
    &&& expect_rel(ch.last(), q4, TokenKind::RCurly)
    &&& complete_rel(q4, post, pre.evs().len() as int, NodeKind::MatchExpr)
}

/// What one `match_expr` call does: the keyword, the subject parsed with
/// structure literals forbidden, the `{`, the arm loop until `}` or the end
/// of the stream, the expected `}`.
pub open spec fn match_post(pre: Parser, post: Parser, c: CompletedMarker, fuel: nat) -> bool
    decreases fuel, 8int,
{
    &&& node_frame(pre, post, c, NodeKind::MatchExpr)
    &&& exists|
        q1: Parser,
        q2: Parser,
        q3: Parser,
        q3b: Parser,
        ch: Seq<Parser>,
        q4: Parser,
    |
        #![trigger start_rel(pre, q1), bump_rel(q1, q2), eat_rel(q3, q3b, TokenKind::LCurly),
            ch.len(), complete_rel(q4, post, pre.evs().len() as int, NodeKind::MatchExpr)]
        match_body(pre, post, q1, q2, q3, q3b, ch, q4, fuel)
}

/// The initializer part of a binding: nothing, or `=` followed by one
/// expression.
pub open spec fn init_step(q4: Parser, q5: Parser, fuel: nat) -> bool
    decreases fuel, 2int,
{
    if q4.cur() == TokenKind::EqSign {
        exists|qe: Parser| #[trigger] bump_rel(q4, qe) && expr_step(qe, q5, false, fuel)
    } else {
        q5 == q4
    }
}

/// `let_stmt` step by step.
pub open spec fn let_body(
    pre: Parser,
    post: Parser,
    q1: Parser,
    q2: Parser,
    q3: Parser,
    q4: Parser,
    q5: Parser,
    q6: Parser,
    fuel: nat,
) -> bool
    decreases fuel, 3int,
{
    &&& start_rel(pre, q1)
    &&& bump_rel(q1, q2)
    &&& patterns::pattern_post(q2, q3)
    &&& if q3.cur() == TokenKind::Colon {
        types::ascription_post(q3, q4)
    } else {
        q4 == q3
    }
    &&& extends(q3, q4)
    &&& init_step(q4, q5, fuel)
    &&& expect_rel(q5, q6, TokenKind::Semi)
    &&& complete_rel(q6, post, pre.evs().len() as int, NodeKind::LetStmt)
}

/// What one `let_stmt` call does: `let`, a pattern, a type ascription
/// exactly when `:` follows, an initializer expression exactly when `=`
/// follows, then the expected `;` terminator.
pub open spec fn let_post(pre: Parser, post: Parser, fuel: nat) -> bool
    decreases fuel, 4int,
{
    &&& parse_step(pre, post)
    &&& post.cursor() > pre.cursor()
    &&& pre.evs().len() < post.evs().len()
    &&& post.evs()[pre.evs().len() as int] == (Event::Begin { kind: NodeKind::LetStmt })
    &&& exists|q1: Parser, q2: Parser, q3: Parser, q4: Parser, q5: Parser, q6: Parser|
        #![trigger start_rel(pre, q1), bump_rel(q1, q2), patterns::pattern_post(q2, q3), extends(
            q3,
            q4,
        ), expect_rel(q5, q6, TokenKind::Semi)]
        let_body(pre, post, q1, q2, q3, q4, q5, q6, fuel)
}

/// The speculative declaration-or-expression-statement step: a node is
/// opened; the declaration grammar decides; on a declaration the node is
/// completed with its kind, on dangling modifiers it is abandoned and the
/// dangling modifiers reported, and otherwise an expression follows, its
/// node completed as an expression-statement exactly when `;` follows it
/// and abandoned — re-parenting the expression into the block — when not.
/// The trailing-expression rule of a block is this last case.
pub open spec fn item_stmt_body(
    a: Parser,
    b: Parser,
    q1: Parser,
    q2: Parser,
    res: MaybeItem,
    fuel: nat,
) -> bool
    decreases fuel, 5int,
{
    &&& start_rel(a, q1)
    &&& items::maybe_item_post(q1, q2, res, fuel)
    &&& match res {
        MaybeItem::Item(kind) => complete_rel(q2, b, a.evs().len() as int, kind),
        MaybeItem::Modifiers => exists|q3: Parser|
            abandon_rel(q2, q3, a.evs().len() as int) && #[trigger] error_rel(
                q3,
                b,
                DiagKind::ExpectedItem,
            ),
        MaybeItem::NoItem => exists|q3: Parser|
            #[trigger] extends(q2, q3) && expr_step(q2, q3, false, fuel) && (if q3.cur()
                == TokenKind::Semi {
                exists|qs: Parser|
                    #[trigger] bump_rel(q3, qs) && complete_rel(
                        qs,
                        b,
                        a.evs().len() as int,
                        NodeKind::ExprStmt,
                    )
            } else {
                abandon_rel(q3, b, a.evs().len() as int)
            }),
    }
}

/// One position of the block-statement loop.
pub open spec fn stmt_rel(a: Parser, b: Parser, fuel: nat) -> bool
    decreases fuel, 6int,
{
    &&& !a.at_eof()
    &&& a.cur() != TokenKind::RCurly
    &&& if a.cur() == TokenKind::LetKw {
        let_post(a, b, fuel)
    } else {
        exists|q1: Parser, q2: Parser, res: MaybeItem|
            #![trigger start_rel(a, q1), items::maybe_item_shape(q1, q2, res)]
            item_stmt_body(a, b, q1, q2, res, fuel)
    }
}

/// The block-statement loop as a chain of states, one per iteration.
pub open spec fn stmts_chain(ch: Seq<Parser>, fuel: nat) -> bool
    decreases fuel, 7int,
{
    forall|i: int| 0 <= i < ch.len() - 1 ==> stmt_rel(#[trigger] ch[i], ch[i + 1], fuel)
}

/// `block_expr` step by step.
pub open spec fn block_body(
    pre: Parser,
    post: Parser,
    q1: Parser,
    q2: Parser,
    q3: Parser,
    ch: Seq<Parser>,
    q4: Parser,
    fuel: nat,
) -> bool
    decreases fuel, 8int,
{
    &&& start_rel(pre, q1)
    &&& eat_rel(q1, q2, TokenKind::UnsafeKw)
    &&& bump_rel(q2, q3)
    &&& ch.len() >= 1 && ch.first() == q3 && stmts_chain(ch, fuel)
    &&& ch.last().at_eof() || ch.last().cur() == TokenKind::RCurly
    &&& expect_rel(ch.last(), q4, TokenKind::RCurly)
    &&& complete_rel(q4, post, pre.evs().len() as int, NodeKind::BlockExpr)
}

/// What one `block_expr` call does: the optional `unsafe`, the `{`, the
/// statement loop until `}` or the end of the stream, and the expected `}`
/// (reported when missing, so the block still closes at the end of the
/// stream).
pub open spec fn block_expr_post(pre: Parser, post: Parser, c: CompletedMarker, fuel: nat) -> bool
    decreases fuel, 9int,
{
    &&& node_frame(pre, post, c, NodeKind::BlockExpr)
    &&& exists|q1: Parser, q2: Parser, q3: Parser, ch: Seq<Parser>, q4: Parser|
        #![trigger start_rel(pre, q1), eat_rel(q1, q2, TokenKind::UnsafeKw), bump_rel(q2, q3),
            ch.len(), complete_rel(q4, post, pre.evs().len() as int, NodeKind::BlockExpr)]
        block_body(pre, post, q1, q2, q3, ch, q4, fuel)
}

/// `return_expr` step by step.
pub open spec fn return_body(
    pre: Parser,
    post: Parser,
    q1: Parser,
    q2: Parser,
    q3: Parser,
    fuel: nat,
) -> bool
    decreases fuel, 3int,
{
    &&& start_rel(pre, q1)
    &&& bump_rel(q1, q2)
    &&& if atom_first_spec(q2.cur()) {
        expr_step(q2, q3, false, fuel)
    } else {
        q3 == q2
    }
    &&& complete_rel(q3, post, pre.evs().len() as int, NodeKind::ReturnExpr)
}

/// What one `return_expr` call does: the keyword, then one expression
/// exactly when the next token can begin one, and nothing beyond it; a bare
/// `return` consumes only the keyword and raises no diagnostic.
pub open spec fn return_post(pre: Parser, post: Parser, c: CompletedMarker, fuel: nat) -> bool
    decreases fuel, 4int,
{
    &&& node_frame(pre, post, c, NodeKind::ReturnExpr)
    &&& !atom_first_spec(pre.peek(1)) ==> post.cursor() == pre.cursor() + 1 && post.diags()
        == pre.diags()
    &&& exists|q1: Parser, q2: Parser, q3: Parser|
        #![trigger start_rel(pre, q1), bump_rel(q1, q2), complete_rel(
            q3,
            post,
            pre.evs().len() as int,
            NodeKind::ReturnExpr,
        )]
        return_body(pre, post, q1, q2, q3, fuel)
}

/// Assembles `if_post` at every depth from the step facts of one
/// `if_expr` call.
proof fn lemma_if_post_intro(
    pre: Parser,
    post: Parser,
    c: CompletedMarker,
    q1: Parser,
    q2: Parser,
    q3: Parser,
    q4: Parser,
)
    requires
        start_rel(pre, q1),
        forall|fuel: nat| head_post(q1, q2, fuel),
        forall|fuel: nat| expressions::block_post(q2, q3, fuel),
        forall|fuel: nat| else_step(q3, q4, fuel),
        complete_rel(q4, post, pre.evs().len() as int, NodeKind::IfExpr),
        node_frame(pre, post, c, NodeKind::IfExpr),
    ensures
        forall|fuel: nat| if_post(pre, post, c, fuel),
{
    assert(head_post(q1, q2, 0));
    assert(expressions::block_post(q2, q3, 0));
    assert forall|fuel: nat| if_post(pre, post, c, fuel) by {
        assert(head_post(q1, q2, fuel));
        assert(expressions::block_post(q2, q3, fuel));
        assert(else_step(q3, q4, fuel));
        assert(if_body(pre, post, q1, q2, q3, q4, fuel));
    }
}

/// Assembles the else part at every depth when the else branch chains
/// into a nested conditional.
proof fn lemma_else_intro_if(q3: Parser, qa: Parser, q4: Parser)
    requires
        q3.cur() == TokenKind::ElseKw,
        bump_rel(q3, qa),
        qa.cur() == TokenKind::IfKw,
        node_span(qa, q4, NodeKind::IfExpr),
        forall|f1: nat| if_span_at(qa, q4, f1),
    ensures
        forall|fuel: nat| else_step(q3, q4, fuel),
{
    assert forall|fuel: nat| else_step(q3, q4, fuel) by {
        if fuel > 0 {
            assert(if_span_at(qa, q4, (fuel - 1) as nat));
        }
    }
}

/// Assembles the else part at every depth when the else branch is a block.
proof fn lemma_else_intro_block(q3: Parser, qa: Parser, q4: Parser)
    requires
        q3.cur() == TokenKind::ElseKw,
        bump_rel(q3, qa),
        qa.cur() != TokenKind::IfKw,
        forall|fuel: nat| expressions::block_post(qa, q4, fuel),
    ensures
        forall|fuel: nat| else_step(q3, q4, fuel),
{
    assert forall|fuel: nat| else_step(q3, q4, fuel) by {
        assert(expressions::block_post(qa, q4, fuel));
    }
}

/// Assembles the else part when no `else` follows.
proof fn lemma_else_intro_none(q3: Parser, q4: Parser)
    requires
        q3.cur() != TokenKind::ElseKw,
        q4 == q3,
    ensures
        forall|fuel: nat| else_step(q3, q4, fuel),
{
}

/// Assembles `match_post` at every depth from the step facts of one
/// `match_expr` call.
proof fn lemma_match_post_intro(
    pre: Parser,
    post: Parser,
    c: CompletedMarker,
    q1: Parser,
    q2: Parser,
    q3: Parser,
    q3b: Parser,
    ch: Seq<Parser>,
    q4: Parser,
)
    requires
        start_rel(pre, q1),
        bump_rel(q1, q2),
        forall|fuel: nat| expr_step(q2, q3, true, fuel),
        eat_rel(q3, q3b, TokenKind::LCurly),
        ch.len() >= 1,
        ch.first() == q3b,
        forall|fuel: nat, i: int|
            0 <= i < ch.len() - 1 ==> #[trigger] arm_step_rel(ch[i], ch[i + 1], fuel),
        ch.last().at_eof() || ch.last().cur() == TokenKind::RCurly,
        expect_rel(ch.last(), q4, TokenKind::RCurly),
        complete_rel(q4, post, pre.evs().len() as int, NodeKind::MatchExpr),
        node_frame(pre, post, c, NodeKind::MatchExpr),
    ensures
        forall|fuel: nat| match_post(pre, post, c, fuel),
{
    assert(expr_step(q2, q3, true, 0));
    assert forall|fuel: nat| match_post(pre, post, c, fuel) by {
        assert(expr_step(q2, q3, true, fuel));
        assert forall|i: int| 0 <= i < ch.len() - 1 implies arm_step_rel(
            #[trigger] ch[i],
            ch[i + 1],
            fuel,
        ) by {
            assert(arm_step_rel(ch[i], ch[i + 1], fuel));
        }
        assert(arms_chain(ch, fuel));
        assert(match_body(pre, post, q1, q2, q3, q3b, ch, q4, fuel));
    }
}

/// Assembles `block_expr_post` at every depth from the step facts of one
/// `block_expr` call.
proof fn lemma_block_post_intro(
    pre: Parser,
    post: Parser,
    c: CompletedMarker,
    q1: Parser,
    q2: Parser,
    q3: Parser,
    ch: Seq<Parser>,
    q4: Parser,
)
    requires
        start_rel(pre, q1),
        eat_rel(q1, q2, TokenKind::UnsafeKw),
        bump_rel(q2, q3),
        ch.len() >= 1,
        ch.first() == q3,
        forall|fuel: nat, i: int|
            0 <= i < ch.len() - 1 ==> #[trigger] stmt_rel(ch[i], ch[i + 1], fuel),
        ch.last().at_eof() || ch.last().cur() == TokenKind::RCurly,
        expect_rel(ch.last(), q4, TokenKind::RCurly),
        complete_rel(q4, post, pre.evs().len() as int, NodeKind::BlockExpr),
        node_frame(pre, post, c, NodeKind::BlockExpr),
    ensures
        forall|fuel: nat| block_expr_post(pre, post, c, fuel),
{
    assert forall|fuel: nat| block_expr_post(pre, post, c, fuel) by {
        assert forall|i: int| 0 <= i < ch.len() - 1 implies stmt_rel(
            #[trigger] ch[i],
            ch[i + 1],
            fuel,
        ) by {
            assert(stmt_rel(ch[i], ch[i + 1], fuel));
        }
        assert(stmts_chain(ch, fuel));
        assert(block_body(pre, post, q1, q2, q3, ch, q4, fuel));
    }
}

/// Assembles the dispatcher's whole contract from the outcome table and
/// the taken branch's own contract.
proof fn lemma_atom_full_intro(
    pre: Parser,
    post: Parser,
    forbid: bool,
    done: CompletedMarker,
)
    requires
        atom_step(pre, post, forbid, Some(done)),
        !literal_first_spec(pre.cur()),
        !paths::path_start_spec(pre.cur()),
        pre.cur() == TokenKind::LParen ==> forall|fuel: nat| tuple_post(pre, post, done, fuel),
        (pre.cur() == TokenKind::Pipe || (pre.cur() == TokenKind::MoveKw && pre.peek(1)
            == TokenKind::Pipe)) ==> forall|fuel: nat| lambda_post(pre, post, done, fuel),
        pre.cur() == TokenKind::IfKw ==> forall|fuel: nat| if_post(pre, post, done, fuel),
        pre.cur() == TokenKind::MatchKw ==> forall|fuel: nat| match_post(pre, post, done, fuel),
        (pre.cur() == TokenKind::LCurly || (pre.cur() == TokenKind::UnsafeKw && pre.peek(1)
            == TokenKind::LCurly)) ==> forall|fuel: nat| block_expr_post(pre, post, done, fuel),
        pre.cur() == TokenKind::ReturnKw ==> forall|fuel: nat| return_post(pre, post, done, fuel),
    ensures
        forall|fuel: nat| atom_full(pre, post, forbid, Some(done), fuel),
{
    assert forall|fuel: nat| atom_full(pre, post, forbid, Some(done), fuel) by {
        if fuel > 0 {
            let f1: nat = (fuel - 1) as nat;
            if pre.cur() == TokenKind::LParen {
                assert(tuple_post(pre, post, done, f1));
            }
            if pre.cur() == TokenKind::Pipe || (pre.cur() == TokenKind::MoveKw && pre.peek(1)
                == TokenKind::Pipe) {
                assert(lambda_post(pre, post, done, f1));
            }
            if pre.cur() == TokenKind::IfKw {
                assert(if_post(pre, post, done, f1));
            }
            if pre.cur() == TokenKind::MatchKw {
                assert(match_post(pre, post, done, f1));
            }
            if pre.cur() == TokenKind::LCurly || (pre.cur() == TokenKind::UnsafeKw && pre.peek(1)
                == TokenKind::LCurly) {
                assert(block_expr_post(pre, post, done, f1));
            }
            if pre.cur() == TokenKind::ReturnKw {
                assert(return_post(pre, post, done, f1));
            }
        }
    }
}

/// A single-token literal node, if the current token is a literal; else
/// nothing, with the state untouched.
pub fn literal(p: &mut Parser) -> (res: Option<CompletedMarker>)
    requires
        old(p).wf(),
    ensures
        parse_step(*old(p), *final(p)),
        literal_first_spec(old(p).cur()) ==> (res matches Some(c) && c.kind == NodeKind::Literal)
            && final(p).cursor() == old(p).cursor() + 1 && final(p).diags() == old(p).diags()
            && final(p).evs() == old(p).evs() + seq![
            (Event::Begin { kind: NodeKind::Literal }),
            (Event::Leaf { token: old(p).cur() }),
            Event::End,
        ],
        !literal_first_spec(old(p).cur()) ==> res is None && *final(p) == *old(p),
{
    if !literal_first().contains(p.current()) {
        proof {
            crate::parser::lemma_extends_refl(*p);
        }
        return None;
    }
    assert(p.cur() != TokenKind::Eof);
    assert(!p.at_eof());
    let ghost p0 = *p;
    let m = p.start();
    let ghost p1 = *p;
    p.bump();
    let ghost p2 = *p;
    let cm = p.complete(m, NodeKind::Literal);
    proof {
        lemma_extends_trans(p0, p1, p2);
        lemma_extends_frame(p0, p2, *p, m.index as int);
        assert(p0.marks().push(m.index).drop_last() =~= p0.marks());
        assert(p.evs() =~= p0.evs() + seq![
            (Event::Begin { kind: NodeKind::Literal }),
            (Event::Leaf { token: p0.cur() }),
            Event::End,
        ]);
    }
    Some(cm)
}

/// The expression dispatcher.  Exactly one of three things happens: a node
/// of the kind the current token dictates is completed (consuming at least
/// one token); or no token can begin an expression and one diagnostic is
/// recorded while exactly one token is consumed; or the stream was already
/// exhausted and only a diagnostic is recorded.  Progress: whenever tokens
/// remain, at least one is consumed.
#[verifier::rlimit(100)]
pub fn atom_expr(p: &mut Parser, r: Restrictions) -> (res: Option<CompletedMarker>)
    requires
        old(p).wf(),
    ensures
        forall|fuel: nat| atom_full(*old(p), *final(p), r.forbid_structs, res, fuel),
        atom_step(*old(p), *final(p), r.forbid_structs, res),
    decreases p.toks().len() - p.cursor(), 2int,
{
    let ghost p0 = *p;
    let lit = literal(p);
    match lit {
        Some(m) => {
            proof {
                assert forall|fuel: nat| atom_full(p0, *p, r.forbid_structs, Some(m), fuel) by {}
            }
            return Some(m);
        },
        None => {},
    }
    if paths::is_path_start(p) {
        let c = paths::path_expr(p, r);
        proof {
            assert forall|fuel: nat| atom_full(p0, *p, r.forbid_structs, Some(c), fuel) by {}
        }
        return Some(c);
    }
    let la = p.nth(1);
    let c0 = p.current();
    let done: CompletedMarker;
    if c0 == TokenKind::LParen {
        done = tuple_expr(p);
    } else if c0 == TokenKind::Pipe {
        done = lambda_expr(p);
    } else if c0 == TokenKind::MoveKw && la == TokenKind::Pipe {
        done = lambda_expr(p);
    } else if c0 == TokenKind::IfKw {
        done = if_expr(p);
    } else if c0 == TokenKind::MatchKw {
        done = match_expr(p);
    } else if c0 == TokenKind::UnsafeKw && la == TokenKind::LCurly {
        done = block_expr(p);
    } else if c0 == TokenKind::LCurly {
        done = block_expr(p);
    } else if c0 == TokenKind::ReturnKw {
        done = return_expr(p);
    } else {
        p.err_and_bump(DiagKind::ExpectedExpression);
        proof {
            assert forall|fuel: nat| atom_full(p0, *p, r.forbid_structs, None::<CompletedMarker>, fuel) by {}
        }
        return None;
    }
    proof {
        assert(atom_step(p0, *p, r.forbid_structs, Some(done)));
        lemma_atom_full_intro(p0, *p, r.forbid_structs, done);
    }
    Some(done)
}

/// A parenthesized expression: the unit pair `( )`, or `(` expression `)`.
/// Inside the parentheses the default restrictions apply again: a structure
/// literal is allowed there even where the surrounding context forbids it.
pub fn tuple_expr(p: &mut Parser) -> (c: CompletedMarker)
    requires
        old(p).wf(),
        old(p).cur() == TokenKind::LParen,
    ensures
        forall|fuel: nat| tuple_post(*old(p), *final(p), c, fuel),
        tuple_post(*old(p), *final(p), c, 0),
    decreases p.toks().len() - p.cursor(), 1int,
{
    let ghost p0 = *p;
    let m = p.start();
    let ghost p1 = *p;
    p.expect(TokenKind::LParen);
    proof {
        lemma_extends_trans(p0, p1, *p);
    }
    let ghost p2 = *p;
    if !p.at(TokenKind::RParen) {
        let _e = expressions::expr(p);
        proof {
            lemma_extends_trans(p0, p2, *p);
        }
    }
    let ghost p3 = *p;
    p.expect(TokenKind::RParen);
    proof {
        lemma_extends_trans(p0, p3, *p);
    }
    let ghost p4 = *p;
    let cm = p.complete(m, NodeKind::TupleExpr);
    proof {
        lemma_extends_frame(p0, p4, *p, m.index as int);
        assert(p0.marks().push(m.index).drop_last() =~= p0.marks());
        assert forall|fuel: nat| tuple_post(p0, *p, cm, fuel) by {
            if p2.cur() != TokenKind::RParen {
                assert(expr_step(p2, p3, false, fuel));
            }
            assert(tuple_body(p0, *p, p1, p2, p3, p4, fuel));
        }
    }
    cm
}

/// A lambda: optional `move`, a parameter list, an optional return type;
/// with a return type the body must be a block, else the body is one
/// expression.
pub fn lambda_expr(p: &mut Parser) -> (c: CompletedMarker)
    requires
        old(p).wf(),
        old(p).cur() == TokenKind::Pipe || (old(p).cur() == TokenKind::MoveKw && old(p).peek(1)
            == TokenKind::Pipe),
    ensures
        forall|fuel: nat| lambda_post(*old(p), *final(p), c, fuel),
        lambda_post(*old(p), *final(p), c, 0),
    decreases p.toks().len() - p.cursor(), 1int,
{
    let ghost p0 = *p;
    let m = p.start();
    let ghost p1 = *p;
    p.eat(TokenKind::MoveKw);
    proof {
        lemma_extends_trans(p0, p1, *p);
    }
    assert(p.cur() == TokenKind::Pipe);
    let ghost p2 = *p;
    params::param_list_opt_types(p);
    proof {
        lemma_extends_trans(p0, p2, *p);
    }
    let ghost p3 = *p;
    let has_ret = types::opt_ret_type(p);
    proof {
        lemma_extends_trans(p0, p3, *p);
    }
    let ghost p4 = *p;
    if has_ret {
        expressions::block(p);
    } else {
        let _e = expressions::expr(p);
    }
    proof {
        lemma_extends_trans(p0, p4, *p);
    }
    let ghost p5 = *p;
    let cm = p.complete(m, NodeKind::LambdaExpr);
    proof {
        lemma_extends_frame(p0, p5, *p, m.index as int);
        assert(p0.marks().push(m.index).drop_last() =~= p0.marks());
        assert forall|fuel: nat| lambda_post(p0, *p, cm, fuel) by {
            if has_ret {
                assert(expressions::block_post(p4, p5, fuel));
            } else {
                assert(expr_step(p4, p5, false, fuel));
            }
            assert(lambda_body(p0, *p, p1, p2, p3, p4, p5, has_ret, fuel));
        }
    }
    cm
}

/// A conditional: `if` head, a block, and optionally `else` followed by a
/// chained conditional or a block.
#[verifier::rlimit(100)]
pub fn if_expr(p: &mut Parser) -> (c: CompletedMarker)
    requires
        old(p).wf(),
        old(p).cur() == TokenKind::IfKw,
    ensures
        forall|fuel: nat| if_post(*old(p), *final(p), c, fuel),
        if_post(*old(p), *final(p), c, 0),
    decreases p.toks().len() - p.cursor(), 1int,
{
    let ghost p0 = *p;
    let m = p.start();
    let ghost p1 = *p;
    if_head(p);
    proof {
        lemma_extends_trans(p0, p1, *p);
    }
    let ghost p2 = *p;
    expressions::block(p);
    proof {
        lemma_extends_trans(p0, p2, *p);
    }
    let ghost p3 = *p;
    let at_else = p.at(TokenKind::ElseKw);
    if at_else {
        p.bump();
        proof {
            lemma_extends_trans(p0, p3, *p);
        }
        let ghost pa = *p;
        if p.at(TokenKind::IfKw) {
            let ec = if_expr(p);
            proof {
                lemma_extends_trans(p0, pa, *p);
                assert(if_post(pa, *p, ec, 0));
                assert(node_span(pa, *p, NodeKind::IfExpr));
                assert forall|f1: nat| #[trigger] if_span_at(pa, *p, f1) by {
                    assert(node_frame(pa, *p, ec, NodeKind::IfExpr));
                    assert(if_post(pa, *p, ec, f1));
                }
                assert(bump_rel(p3, pa));
                lemma_else_intro_if(p3, pa, *p);
            }
        } else {
            expressions::block(p);
            proof {
                lemma_extends_trans(p0, pa, *p);
                assert(bump_rel(p3, pa));
                lemma_else_intro_block(p3, pa, *p);
            }
        }
    } else {
        proof {
            lemma_else_intro_none(p3, *p);
        }
    }
    let ghost p4 = *p;
    let cm = p.complete(m, NodeKind::IfExpr);
    proof {
        lemma_extends_frame(p0, p4, *p, m.index as int);
        assert(p0.marks().push(m.index).drop_last() =~= p0.marks());
        assert(node_frame(p0, *p, cm, NodeKind::IfExpr));
        lemma_if_post_intro(p0, *p, cm, p1, p2, p3, p4);
    }
    cm
}

/// The head of a conditional: `if` plus its condition, parsed with
/// structure literals forbidden; the caller's own restrictions are not
/// otherwise disturbed.
pub fn if_head(p: &mut Parser)
    requires
        old(p).wf(),
        old(p).cur() == TokenKind::IfKw,
    ensures
        forall|fuel: nat| head_post(*old(p), *final(p), fuel),
        head_post(*old(p), *final(p), 0),
    decreases p.toks().len() - p.cursor(), 0int,
{
    let ghost p0 = *p;
    p.bump();
    let ghost p1 = *p;
    let _e = expressions::expr_no_struct(p);
    proof {
        lemma_extends_trans(p0, p1, *p);
        assert forall|fuel: nat| head_post(p0, *p, fuel) by {
            assert(bump_rel(p0, p1) && expr_step(p1, *p, true, fuel));
        }
    }
}

/// A pattern-match expression: `match`, a subject with structure literals
/// forbidden, then `{`, arms separated by commas, `}`.
#[verifier::loop_isolation(false)]
#[verifier::rlimit(100)]
pub fn match_expr(p: &mut Parser) -> (c: CompletedMarker)
    requires
        old(p).wf(),
        old(p).cur() == TokenKind::MatchKw,
    ensures
        forall|fuel: nat| match_post(*old(p), *final(p), c, fuel),
        match_post(*old(p), *final(p), c, 0),
    decreases p.toks().len() - p.cursor(), 1int,
{
    let ghost p0 = *p;
    let m = p.start();
    let ghost p1 = *p;
    p.bump();
    proof {
        lemma_extends_trans(p0, p1, *p);
    }
    let ghost p2 = *p;
    let _s = expressions::expr_no_struct(p);
    proof {
        lemma_extends_trans(p0, p2, *p);
    }
    let ghost p3 = *p;
    p.eat(TokenKind::LCurly);
    proof {
        lemma_extends_trans(p0, p3, *p);
    }
    let ghost p3b = *p;
    let ghost mut ch: Seq<Parser> = seq![*p];
    while !p.at_end() && !p.at(TokenKind::RCurly)
        invariant
            p.wf(),
            extends(p0, *p),
            p.marks() == p0.marks().push(m.index),
            m.index == p0.evs().len(),
            p.cursor() > p0.cursor(),
            ch.len() >= 1,
            ch.first() == p3b,
            ch.last() == *p,
            forall|fuel: nat, i: int|
                0 <= i < ch.len() - 1 ==> #[trigger] arm_step_rel(ch[i], ch[i + 1], fuel),
        decreases p.toks().len() - p.cursor(),
    {
        let ghost pa = *p;
        match_arm(p);
        proof {
            lemma_extends_trans(p0, pa, *p);
        }
        let ghost pb = *p;
        if !p.at(TokenKind::RCurly) {
            p.expect(TokenKind::Comma);
            proof {
                lemma_extends_trans(p0, pb, *p);
            }
        }
        proof {
            assert forall|fuel: nat| arm_step_rel(pa, *p, fuel) by {
                assert(arm_post(pa, pb, fuel) && (if pb.cur() != TokenKind::RCurly {
                    expect_rel(pb, *p, TokenKind::Comma)
                } else {
                    same_state(pb, *p)
                }));
            }
            assert forall|fuel: nat, i: int|
                0 <= i < ch.push(*p).len() - 1 implies #[trigger] arm_step_rel(
                ch.push(*p)[i],
                ch.push(*p)[i + 1],
                fuel,
            ) by {
                if i < ch.len() - 1 {
                    assert(arm_step_rel(ch[i], ch[i + 1], fuel));
                } else {
                    assert(ch.push(*p)[i] == pa);
                    assert(ch.push(*p)[i + 1] == *p);
                    assert(arm_step_rel(pa, *p, fuel));
                }
            }
            ch = ch.push(*p);
        }
    }
    let ghost p4 = *p;
    p.expect(TokenKind::RCurly);
    proof {
        lemma_extends_trans(p0, p4, *p);
    }
    let ghost p5 = *p;
    let cm = p.complete(m, NodeKind::MatchExpr);
    proof {
        lemma_extends_frame(p0, p5, *p, m.index as int);
        assert(p0.marks().push(m.index).drop_last() =~= p0.marks());
        assert(start_rel(p0, p1));
        assert(bump_rel(p1, p2));
        assert(eat_rel(p3, p3b, TokenKind::LCurly));
        assert(node_frame(p0, *p, cm, NodeKind::MatchExpr));
        lemma_match_post_intro(p0, *p, cm, p1, p2, p3, p3b, ch, p5);
    }
    cm
}

/// One match arm: alternated patterns joined by `|`, an optional guard
/// (`if` plus condition, restrictions applied as for a conditional head),
/// `=>`, then the body expression.
#[verifier::loop_isolation(false)]
pub fn match_arm(p: &mut Parser)
    requires
        old(p).wf(),
        !old(p).at_eof(),
    ensures
        forall|fuel: nat| arm_post(*old(p), *final(p), fuel),
        arm_post(*old(p), *final(p), 0),
    decreases p.toks().len() - p.cursor(), 1int,
{
    let ghost p0 = *p;
    let m = p.start();
    let ghost p1 = *p;
    patterns::pattern(p);
    proof {
        lemma_extends_trans(p0, p1, *p);
    }
    let ghost p2 = *p;
    let ghost mut ch: Seq<Parser> = seq![*p];
    while p.at(TokenKind::Pipe)
        invariant
            p.wf(),
            extends(p0, *p),
            p.marks() == p0.marks().push(m.index),
            m.index == p0.evs().len(),
            p.cursor() > p0.cursor(),
            ch.len() >= 1,
            ch.first() == p2,
            ch.last() == *p,
            alts_chain(ch),
        decreases p.toks().len() - p.cursor(),
    {
        let ghost pa = *p;
        p.bump();
        let ghost pb = *p;
        patterns::pattern(p);
        proof {
            lemma_extends_trans(pa, pb, *p);
            lemma_extends_trans(p0, pa, *p);
            assert(alt_step_rel(pa, *p)) by {
                assert(bump_rel(pa, pb) && patterns::pattern_post(pb, *p));
            }
            assert forall|i: int| 0 <= i < ch.push(*p).len() - 1 implies alt_step_rel(
                #[trigger] ch.push(*p)[i],
                ch.push(*p)[i + 1],
            ) by {
                if i < ch.len() - 1 {
                    assert(alt_step_rel(ch[i], ch[i + 1]));
                } else {
                    assert(ch.push(*p)[i] == pa);
                    assert(ch.push(*p)[i + 1] == *p);
                }
            }
            ch = ch.push(*p);
        }
    }
    let ghost p3 = *p;
    if p.at(TokenKind::IfKw) {
        if_head(p);
        proof {
            lemma_extends_trans(p0, p3, *p);
        }
    }
    let ghost p4 = *p;
    p.expect(TokenKind::FatArrow);
    proof {
        lemma_extends_trans(p0, p4, *p);
    }
    let ghost p5 = *p;
    let _e = expressions::expr(p);
    proof {
        lemma_extends_trans(p0, p5, *p);
    }
    let ghost p6 = *p;
    let _cm = p.complete(m, NodeKind::MatchArm);
    proof {
        lemma_extends_frame(p0, p6, *p, m.index as int);
        assert(p0.marks().push(m.index).drop_last() =~= p0.marks());
        assert forall|fuel: nat| arm_post(p0, *p, fuel) by {
            if p3.cur() == TokenKind::IfKw {
                assert(head_post(p3, p4, fuel));
            }
            assert(expr_step(p5, p6, false, fuel));
            assert(arm_body(p0, *p, p1, p2, ch, p4, p5, p6, fuel));
        }
    }
}

/// A block expression: optional `unsafe`, `{`, a sequence of block items,
/// `}`.  Per position inside the block: a `let` binding; or a speculative
/// declaration attempt whose node is completed, abandoned with a dangling-
/// modifier diagnostic, or abandoned untouched; falling through, a full
/// expression, wrapped as an expression-statement exactly when a `;`
/// follows — the unterminated trailing expression is re-parented into the
/// block itself and gives the block its value.
#[verifier::loop_isolation(false)]
#[verifier::rlimit(100)]
pub fn block_expr(p: &mut Parser) -> (c: CompletedMarker)
    requires
        old(p).wf(),
        old(p).cur() == TokenKind::LCurly || (old(p).cur() == TokenKind::UnsafeKw && old(p).peek(1)
            == TokenKind::LCurly),
    ensures
        forall|fuel: nat| block_expr_post(*old(p), *final(p), c, fuel),
        block_expr_post(*old(p), *final(p), c, 0),
    decreases p.toks().len() - p.cursor(), 1int,
{
    let ghost p0 = *p;
    let m = p.start();
    let ghost p1 = *p;
    p.eat(TokenKind::UnsafeKw);
    proof {
        lemma_extends_trans(p0, p1, *p);
    }
    assert(p.cur() == TokenKind::LCurly);
    let ghost p2 = *p;
    p.bump();
    proof {
        lemma_extends_trans(p0, p2, *p);
    }
    let ghost p3 = *p;
    let ghost mut ch: Seq<Parser> = seq![*p];
    while !p.at_end() && !p.at(TokenKind::RCurly)
        invariant
            p.wf(),
            extends(p0, *p),
            p.marks() == p0.marks().push(m.index),
            m.index == p0.evs().len(),
            p.cursor() > p0.cursor(),
            ch.len() >= 1,
            ch.first() == p3,
            ch.last() == *p,
            forall|fuel: nat, i: int|
                0 <= i < ch.len() - 1 ==> #[trigger] stmt_rel(ch[i], ch[i + 1], fuel),
        decreases p.toks().len() - p.cursor(),
    {
        let ghost pa = *p;
        if p.at(TokenKind::LetKw) {
            let_stmt(p);
            proof {
                lemma_extends_trans(p0, pa, *p);
                assert forall|fuel: nat| stmt_rel(pa, *p, fuel) by {
                    assert(let_post(pa, *p, fuel));
                }
            }
        } else {
            let m2 = p.start();
            let ghost pb = *p;
            let res = items::maybe_item(p);
            let ghost pc = *p;
            match res {
                MaybeItem::Item(kind) => {
                    let _cm = p.complete(m2, kind);
                    proof {
                        lemma_extends_trans(pa, pb, pc);
                        lemma_extends_frame(pa, pc, *p, m2.index as int);
                        lemma_extends_trans(p0, pa, *p);
                        assert(pa.marks().push(m2.index).drop_last() =~= pa.marks());
                        assert forall|fuel: nat| item_stmt_body(pa, *p, pb, pc, res, fuel) by {
                            assert(items::maybe_item_post(pb, pc, res, fuel));
                        }
                    }
                },
                MaybeItem::Modifiers => {
                    let ghost pd0 = *p;
                    p.abandon(m2);
                    proof {
                        lemma_extends_trans(pa, pb, pc);
                        lemma_extends_frame(pa, pd0, *p, m2.index as int);
                        assert(pa.marks().push(m2.index).drop_last() =~= pa.marks());
                    }
                    let ghost pd = *p;
                    p.error(DiagKind::ExpectedItem);
                    proof {
                        lemma_extends_trans(pa, pd, *p);
                        lemma_extends_trans(p0, pa, *p);
                        assert forall|fuel: nat| item_stmt_body(pa, *p, pb, pc, res, fuel) by {
                            assert(items::maybe_item_post(pb, pc, res, fuel));
                            assert(abandon_rel(pc, pd, pa.evs().len() as int) && error_rel(
                                pd,
                                *p,
                                DiagKind::ExpectedItem,
                            ));
                        }
                    }
                },
                MaybeItem::NoItem => {
                    let _e = expressions::expr(p);
                    proof {
                        lemma_extends_trans(pa, pc, *p);
                    }
                    let ghost pe = *p;
                    if p.eat(TokenKind::Semi) {
                        let ghost pf = *p;
                        let _cm = p.complete(m2, NodeKind::ExprStmt);
                        proof {
                            lemma_extends_trans(pa, pe, pf);
                            lemma_extends_frame(pa, pf, *p, m2.index as int);
                            lemma_extends_trans(p0, pa, *p);
                            assert(pa.marks().push(m2.index).drop_last() =~= pa.marks());
                            assert forall|fuel: nat| item_stmt_body(pa, *p, pb, pc, res, fuel) by {
                                assert(items::maybe_item_post(pb, pc, res, fuel));
                                assert(expr_step(pc, pe, false, fuel));
                                assert(bump_rel(pe, pf) && complete_rel(
                                    pf,
                                    *p,
                                    pa.evs().len() as int,
                                    NodeKind::ExprStmt,
                                ));
                            }
                        }
                    } else {
                        let ghost pf = *p;
                        p.abandon(m2);
                        proof {
                            lemma_extends_frame(pa, pf, *p, m2.index as int);
                            lemma_extends_trans(p0, pa, *p);
                            assert(pa.marks().push(m2.index).drop_last() =~= pa.marks());
                            assert forall|fuel: nat| item_stmt_body(pa, *p, pb, pc, res, fuel) by {
                                assert(items::maybe_item_post(pb, pc, res, fuel));
                                assert(expr_step(pc, pe, false, fuel));
                                assert(abandon_rel(pe, *p, pa.evs().len() as int));
                            }
                        }
                    }
                },
            }
            proof {
                assert forall|fuel: nat| stmt_rel(pa, *p, fuel) by {
                    assert(item_stmt_body(pa, *p, pb, pc, res, fuel));
                }
            }
        }
        proof {
            assert forall|fuel: nat, i: int|
                0 <= i < ch.push(*p).len() - 1 implies #[trigger] stmt_rel(
                ch.push(*p)[i],
                ch.push(*p)[i + 1],
                fuel,
            ) by {
                if i < ch.len() - 1 {
                    assert(stmt_rel(ch[i], ch[i + 1], fuel));
                } else {
                    assert(ch.push(*p)[i] == pa);
                    assert(ch.push(*p)[i + 1] == *p);
                    assert(stmt_rel(pa, *p, fuel));
                }
            }
            ch = ch.push(*p);
        }
    }
    let ghost p4 = *p;
    p.expect(TokenKind::RCurly);
    proof {
        lemma_extends_trans(p0, p4, *p);
    }
    let ghost p5 = *p;
    let cm = p.complete(m, NodeKind::BlockExpr);
    proof {
        lemma_extends_frame(p0, p5, *p, m.index as int);
        assert(p0.marks().push(m.index).drop_last() =~= p0.marks());
        assert(start_rel(p0, p1));
        assert(eat_rel(p1, p2, TokenKind::UnsafeKw));
        assert(bump_rel(p2, p3));
        assert(node_frame(p0, *p, cm, NodeKind::BlockExpr));
        lemma_block_post_intro(p0, *p, cm, p1, p2, p3, ch, p5);
    }
    cm
}

/// A local binding: `let`, a pattern, an optional type ascription, an
/// optional `=` initializer, and the required `;` terminator — required but
/// tolerantly: when missing it is recorded and parsing continues.
pub fn let_stmt(p: &mut Parser)
    requires
        old(p).wf(),
        old(p).cur() == TokenKind::LetKw,
    ensures
        forall|fuel: nat| let_post(*old(p), *final(p), fuel),
        let_post(*old(p), *final(p), 0),
    decreases p.toks().len() - p.cursor(), 1int,
{
    let ghost p0 = *p;
    let m = p.start();
    let ghost p1 = *p;
    p.bump();
    proof {
        lemma_extends_trans(p0, p1, *p);
    }
    let ghost p2 = *p;
    patterns::pattern(p);
    proof {
        lemma_extends_trans(p0, p2, *p);
    }
    let ghost p3 = *p;
    if p.at(TokenKind::Colon) {
        types::ascription(p);
        proof {
            lemma_extends_trans(p0, p3, *p);
        }
    }
    let ghost p4 = *p;
    let has_init = p.eat(TokenKind::EqSign);
    let ghost p4e = *p;
    if has_init {
        let _e = expressions::expr(p);
        proof {
            lemma_extends_trans(p4, p4e, *p);
            lemma_extends_trans(p0, p4, *p);
        }
    }
    let ghost p5 = *p;
    p.expect(TokenKind::Semi);
    proof {
        lemma_extends_trans(p0, p5, *p);
    }
    let ghost p6 = *p;
    let _cm = p.complete(m, NodeKind::LetStmt);
    proof {
        lemma_extends_frame(p0, p6, *p, m.index as int);
        assert(p0.marks().push(m.index).drop_last() =~= p0.marks());
        if p3.cur() != TokenKind::Colon {
            crate::parser::lemma_extends_refl(p3);
        }
        assert(extends(p3, p4));
        assert forall|fuel: nat| let_post(p0, *p, fuel) by {
            if p4.cur() == TokenKind::EqSign {
                assert(bump_rel(p4, p4e));
                assert(expr_step(p4e, p5, false, fuel));
            }
            assert(init_step(p4, p5, fuel));
            assert(let_body(p0, *p, p1, p2, p3, p4, p5, p6, fuel));
        }
    }
}

/// A return expression: `return`, optionally followed by an expression when
/// the current token is in the expression FIRST set (`return ;` is valid
/// and consumes only the keyword).
pub fn return_expr(p: &mut Parser) -> (c: CompletedMarker)
    requires
        old(p).wf(),
        old(p).cur() == TokenKind::ReturnKw,
    ensures
        forall|fuel: nat| return_post(*old(p), *final(p), c, fuel),
        return_post(*old(p), *final(p), c, 0),
    decreases p.toks().len() - p.cursor(), 1int,
{
    let ghost p0 = *p;
    let m = p.start();
    let ghost p1 = *p;
    p.bump();
    proof {
        lemma_extends_trans(p0, p1, *p);
    }
    let ghost p2 = *p;
    if expressions::expr_first().contains(p.current()) {
        let _e = expressions::expr(p);
        proof {
            lemma_extends_trans(p0, p2, *p);
        }
    }
    let ghost p3 = *p;
    let cm = p.complete(m, NodeKind::ReturnExpr);
    proof {
        lemma_extends_frame(p0, p3, *p, m.index as int);
        assert(p0.marks().push(m.index).drop_last() =~= p0.marks());
        assert forall|fuel: nat| return_post(p0, *p, cm, fuel) by {
            if atom_first_spec(p2.cur()) {
                assert(expr_step(p2, p3, false, fuel));
            }
            assert(return_body(p0, *p, p1, p2, p3, fuel));
        }
    }
    cm
}

} // verus!
