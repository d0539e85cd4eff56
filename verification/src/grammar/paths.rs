//! The path grammar, consumed by the expression dispatcher through a narrow
//! contract: a zero-token predicate for FIRST-set dispatch, and a parser for
//! a path expression with an optional structure-literal body.

use crate::events::Event;
use crate::grammar::Restrictions;
use crate::parser::{
    bump_rel, complete_rel, eat_rel, error_rel, expect_rel, extends, lemma_extends_frame,
    lemma_extends_trans, parse_step, start_rel, CompletedMarker, Parser,
};
use crate::syntax::{DiagKind, NodeKind, TokenKind};
use vstd::prelude::*;

verus! {

/// The FIRST set of the path grammar.
pub open spec fn path_start_spec(k: TokenKind) -> bool {
    ||| k == TokenKind::Ident
    ||| k == TokenKind::SelfKw
    ||| k == TokenKind::SuperKw
    ||| k == TokenKind::ColonColon
}

/// A token that can stand as a path segment.
pub open spec fn segment_token(k: TokenKind) -> bool {
    k == TokenKind::Ident || k == TokenKind::SelfKw || k == TokenKind::SuperKw
}

/// What one `path_segment` call does: the segment token is consumed, or a
/// missing one is reported and nothing is consumed.
pub open spec fn segment_post(pre: Parser, post: Parser) -> bool {
    &&& parse_step(pre, post)
    &&& if segment_token(pre.cur()) {
        bump_rel(pre, post)
    } else {
        error_rel(pre, post, DiagKind::ExpectedToken(TokenKind::Ident))
    }
}

/// One step of the segment loop: a `::` joined to the next segment.
pub open spec fn segment_step_rel(a: Parser, b: Parser) -> bool {
    &&& a.cur() == TokenKind::ColonColon
    &&& exists|q: Parser| bump_rel(a, q) && segment_post(q, b)
}

/// The segment loop as a chain of states, one per iteration.
pub open spec fn segments_chain(ch: Seq<Parser>) -> bool {
    forall|i: int| 0 <= i < ch.len() - 1 ==> segment_step_rel(#[trigger] ch[i], ch[i + 1])
}

/// What one `path_expr` call does: an optional leading `::`, a first
/// segment, further `::`-joined segments while `::` is at the cursor, and
/// then — exactly when structure literals are allowed and `{` follows the
/// path — a structure-literal body, making the node a `StructLit`; in every
/// other case the node is a `PathExpr`.
pub open spec fn path_post(pre: Parser, post: Parser, forbid: bool, c: CompletedMarker) -> bool {
    &&& parse_step(pre, post)
    &&& post.cursor() > pre.cursor()
    &&& c.index == pre.evs().len()
    &&& post.evs()[c.index as int] == (Event::Begin { kind: c.kind })
    &&& exists|q1: Parser, q2: Parser, q3: Parser, ch: Seq<Parser>|
        {
            &&& start_rel(pre, q1)
            &&& eat_rel(q1, q2, TokenKind::ColonColon)
            &&& segment_post(q2, q3)
            &&& ch.len() >= 1 && ch.first() == q3 && segments_chain(ch)
            &&& ch.last().cur() != TokenKind::ColonColon
            &&& if !forbid && ch.last().cur() == TokenKind::LCurly {
                c.kind == NodeKind::StructLit && exists|qa: Parser, qb: Parser|
                    bump_rel(ch.last(), qa) && expect_rel(qa, qb, TokenKind::RCurly)
                        && complete_rel(qb, post, pre.evs().len() as int, NodeKind::StructLit)
            } else {
                c.kind == NodeKind::PathExpr && complete_rel(
                    ch.last(),
                    post,
                    pre.evs().len() as int,
                    NodeKind::PathExpr,
                )
            }
        }
}

/// Whether the current token can begin a path.  Consumes nothing.
pub fn is_path_start(p: &Parser) -> (r: bool)
    ensures
        r == path_start_spec(p.cur()),
{
    let c = p.current();
    c == TokenKind::Ident || c == TokenKind::SelfKw || c == TokenKind::SuperKw || c
        == TokenKind::ColonColon
}

/// One path segment: a name token, or a recorded diagnostic if none is
/// there (the segment is then assumed to appear later).
fn path_segment(p: &mut Parser)
    requires
        old(p).wf(),
    ensures
        segment_post(*old(p), *final(p)),
{
    let c = p.current();
    if c == TokenKind::Ident || c == TokenKind::SelfKw || c == TokenKind::SuperKw {
        p.bump();
    } else {
        p.error(DiagKind::ExpectedToken(TokenKind::Ident));
    }
}

/// A path expression: segments joined by `::`, optionally followed — where
/// the restrictions allow it — by a structure-literal body `{ }`.  The body
/// is the degenerate empty form; richer field lists are a sibling concern.
#[verifier::loop_isolation(false)]
pub fn path_expr(p: &mut Parser, r: Restrictions) -> (c: CompletedMarker)
    requires
        old(p).wf(),
        path_start_spec(old(p).cur()),
    ensures
        path_post(*old(p), *final(p), r.forbid_structs, c),
        c.kind == NodeKind::PathExpr || c.kind == NodeKind::StructLit,
        r.forbid_structs ==> c.kind == NodeKind::PathExpr,
{
    let ghost p0 = *p;
    let m = p.start();
    let ghost p1 = *p;
    p.eat(TokenKind::ColonColon);
    proof {
        lemma_extends_trans(p0, p1, *p);
    }
    let ghost p2 = *p;
    path_segment(p);
    proof {
        lemma_extends_trans(p0, p2, *p);
    }
    let ghost p3 = *p;
    let ghost mut ch: Seq<Parser> = seq![*p];
    while p.at(TokenKind::ColonColon)
        invariant
            p.wf(),
            extends(p0, *p),
            p.marks() == p0.marks().push(m.index),
            m.index == p0.evs().len(),
            p.cursor() > p0.cursor(),
            ch.len() >= 1,
            ch.first() == p3,
            ch.last() == *p,
            segments_chain(ch),
        decreases p.toks().len() - p.cursor(),
    {
        let ghost pa = *p;
        p.bump();
        let ghost pb = *p;
        path_segment(p);
        proof {
            lemma_extends_trans(pa, pb, *p);
            lemma_extends_trans(p0, pa, *p);
            assert(segment_step_rel(pa, *p)) by {
                assert(bump_rel(pa, pb) && segment_post(pb, *p));
            }
            assert forall|i: int| 0 <= i < ch.push(*p).len() - 1 implies segment_step_rel(
                #[trigger] ch.push(*p)[i],
                ch.push(*p)[i + 1],
            ) by {
                if i < ch.len() - 1 {
                    assert(segment_step_rel(ch[i], ch[i + 1]));
                } else {
                    assert(ch.push(*p)[i] == pa);
                    assert(ch.push(*p)[i + 1] == *p);
                }
            }
            ch = ch.push(*p);
        }
    }
    if !r.forbid_structs && p.at(TokenKind::LCurly) {
        let ghost pc = *p;
        p.bump();
        let ghost pd = *p;
        p.expect(TokenKind::RCurly);
        proof {
            lemma_extends_trans(pc, pd, *p);
            lemma_extends_trans(p0, pc, *p);
        }
        let ghost pe = *p;
        let cm = p.complete(m, NodeKind::StructLit);
        proof {
            lemma_extends_frame(p0, pe, *p, m.index as int);
            assert(p0.marks().push(m.index).drop_last() =~= p0.marks());
            assert(start_rel(p0, p1) && eat_rel(p1, p2, TokenKind::ColonColon) && segment_post(
                p2,
                p3,
            ) && ch.len() >= 1 && ch.first() == p3 && segments_chain(ch) && bump_rel(ch.last(), pd)
                && expect_rel(pd, pe, TokenKind::RCurly) && complete_rel(
                pe,
                *p,
                p0.evs().len() as int,
                NodeKind::StructLit,
            ));
        }
        cm
    } else {
        let ghost pe = *p;
        let cm = p.complete(m, NodeKind::PathExpr);
        proof {
            lemma_extends_frame(p0, pe, *p, m.index as int);
            assert(p0.marks().push(m.index).drop_last() =~= p0.marks());
            assert(start_rel(p0, p1) && eat_rel(p1, p2, TokenKind::ColonColon) && segment_post(
                p2,
                p3,
            ) && ch.len() >= 1 && ch.first() == p3 && segments_chain(ch) && complete_rel(
                pe,
                *p,
                p0.evs().len() as int,
                NodeKind::PathExpr,
            ));
        }
        cm
    }
}

} // verus!
