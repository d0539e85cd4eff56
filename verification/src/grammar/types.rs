//! The type grammar, consumed through a narrow contract: an ascription
//! consumes a `:` plus a type, and an optional function return type
//! consumes `->` plus a type when the arrow is there.

use crate::events::Event;
use crate::parser::{
    bump_rel, complete_rel, error_rel, expect_rel, lemma_extends_frame, lemma_extends_refl,
    lemma_extends_trans, parse_step, same_state, start_rel, Parser,
};
use crate::syntax::{DiagKind, NodeKind, TokenKind};
use vstd::prelude::*;

verus! {

/// What one `type_ref` call does, exactly: a name becomes a one-token
/// `TypeRef` node; `(` `)` becomes the unit `TypeRef` (a missing `)` is
/// reported); anything else is reported and nothing is consumed.
pub open spec fn type_ref_post(pre: Parser, post: Parser) -> bool {
    &&& parse_step(pre, post)
    &&& pre.cur() == TokenKind::Ident ==> post.cursor() == pre.cursor() + 1 && post.diags()
        == pre.diags() && post.evs() == pre.evs() + seq![
        (Event::Begin { kind: NodeKind::TypeRef }),
        (Event::Leaf { token: pre.cur() }),
        Event::End,
    ]
    &&& pre.cur() == TokenKind::LParen ==> exists|q1: Parser, q2: Parser, q3: Parser|
        start_rel(pre, q1) && bump_rel(q1, q2) && expect_rel(q2, q3, TokenKind::RParen)
            && complete_rel(q3, post, pre.evs().len() as int, NodeKind::TypeRef)
    &&& (pre.cur() != TokenKind::Ident && pre.cur() != TokenKind::LParen) ==> error_rel(
        pre,
        post,
        DiagKind::ExpectedType,
    )
}

/// What one `ascription` call does: the `:` is consumed, then one type
/// reference.
pub open spec fn ascription_post(pre: Parser, post: Parser) -> bool {
    &&& parse_step(pre, post)
    &&& post.cursor() > pre.cursor()
    &&& exists|q: Parser| bump_rel(pre, q) && type_ref_post(q, post)
}

/// What one `opt_ret_type` call does: with the arrow at the cursor, a
/// `RetType` node holding the arrow and a type reference; without it,
/// nothing at all.
pub open spec fn ret_type_post(pre: Parser, post: Parser, r: bool) -> bool {
    &&& parse_step(pre, post)
    &&& r == (pre.cur() == TokenKind::ThinArrow)
    &&& if r {
        exists|q1: Parser, q2: Parser, q3: Parser|
            start_rel(pre, q1) && bump_rel(q1, q2) && type_ref_post(q2, q3) && complete_rel(
                q3,
                post,
                pre.evs().len() as int,
                NodeKind::RetType,
            )
    } else {
        same_state(pre, post)
    }
}

/// One type reference: a name, or the unit type `( )`.  A missing type is
/// recorded as a diagnostic and nothing is consumed (the type is assumed to
/// appear later).
pub fn type_ref(p: &mut Parser)
    requires
        old(p).wf(),
    ensures
        type_ref_post(*old(p), *final(p)),
{
    let c = p.current();
    if c == TokenKind::Ident {
        let ghost p0 = *p;
        let m = p.start();
        let ghost p1 = *p;
        p.bump();
        let ghost p2 = *p;
        let _cm = p.complete(m, NodeKind::TypeRef);
        proof {
            lemma_extends_trans(p0, p1, p2);
            lemma_extends_frame(p0, p2, *p, m.index as int);
            assert(p0.marks().push(m.index).drop_last() =~= p0.marks());
            assert(p.evs() =~= p0.evs() + seq![
                (Event::Begin { kind: NodeKind::TypeRef }),
                (Event::Leaf { token: p0.cur() }),
                Event::End,
            ]);
        }
    } else if c == TokenKind::LParen {
        let ghost p0 = *p;
        let m = p.start();
        let ghost p1 = *p;
        p.bump();
        let ghost p2 = *p;
        p.expect(TokenKind::RParen);
        proof {
            lemma_extends_trans(p0, p1, p2);
            lemma_extends_trans(p0, p2, *p);
        }
        let ghost p3 = *p;
        let _cm = p.complete(m, NodeKind::TypeRef);
        proof {
            lemma_extends_frame(p0, p3, *p, m.index as int);
            assert(p0.marks().push(m.index).drop_last() =~= p0.marks());
            assert(start_rel(p0, p1) && bump_rel(p1, p2) && expect_rel(p2, p3, TokenKind::RParen)
                && complete_rel(p3, *p, p0.evs().len() as int, NodeKind::TypeRef));
        }
    } else {
        p.error(DiagKind::ExpectedType);
    }
}

/// A type ascription: `:` plus a type.
pub fn ascription(p: &mut Parser)
    requires
        old(p).wf(),
        old(p).cur() == TokenKind::Colon,
    ensures
        ascription_post(*old(p), *final(p)),
{
    let ghost p0 = *p;
    p.bump();
    let ghost p1 = *p;
    type_ref(p);
    proof {
        lemma_extends_trans(p0, p1, *p);
        assert(bump_rel(p0, p1) && type_ref_post(p1, *p));
    }
}

/// An optional function return type: consumes `->` plus a type iff the
/// arrow is at the cursor, and reports whether it was.
pub fn opt_ret_type(p: &mut Parser) -> (r: bool)
    requires
        old(p).wf(),
    ensures
        ret_type_post(*old(p), *final(p), r),
{
    if p.at(TokenKind::ThinArrow) {
        let ghost p0 = *p;
        let m = p.start();
        let ghost p1 = *p;
        p.bump();
        let ghost p2 = *p;
        type_ref(p);
        proof {
            lemma_extends_trans(p0, p1, p2);
            lemma_extends_trans(p0, p2, *p);
        }
        let ghost p3 = *p;
        let _cm = p.complete(m, NodeKind::RetType);
        proof {
            lemma_extends_frame(p0, p3, *p, m.index as int);
            assert(p0.marks().push(m.index).drop_last() =~= p0.marks());
            assert(start_rel(p0, p1) && bump_rel(p1, p2) && type_ref_post(p2, p3) && complete_rel(
                p3,
                *p,
                p0.evs().len() as int,
                NodeKind::RetType,
            ));
        }
        true
    } else {
        proof {
            lemma_extends_refl(*p);
        }
        false
    }
}

} // verus!
