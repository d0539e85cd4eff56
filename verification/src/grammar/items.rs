//! The declaration grammar, consumed through its tagged outcome: a concrete
//! declaration was recognized, modifiers were consumed with no declaration
//! after them, or nothing declaration-like was present (and then nothing at
//! all was consumed).

use crate::grammar::expressions;
use crate::parser::{
    bump_rel, eat_rel, expect_rel, lemma_extends_refl, lemma_extends_trans, parse_step,
    same_state, Parser,
};
use crate::syntax::{NodeKind, TokenKind};
use vstd::prelude::*;

verus! {

/// The tagged outcome of an attempt to parse a declaration.
#[derive(Clone, Copy, PartialEq, Eq, Structural, Debug)]
pub enum MaybeItem {
    /// A concrete declaration was parsed; the caller completes its node
    /// with this kind.
    Item(NodeKind),
    /// Declaration modifiers were consumed but no declaration followed.
    Modifiers,
    /// Nothing declaration-like was present; zero tokens were consumed.
    NoItem,
}

/// What one `fn_def` call does: the `fn` keyword, the expected name and
/// parameter parentheses, then the block body, described at the given
/// recursion depth.
pub open spec fn fn_def_post(pre: Parser, post: Parser, fuel: nat) -> bool
    decreases fuel, 11int,
{
    &&& parse_step(pre, post)
    &&& post.cursor() > pre.cursor()
    &&& exists|q1: Parser, q2: Parser, q3: Parser, q4: Parser|
        bump_rel(pre, q1) && expect_rel(q1, q2, TokenKind::Ident) && expect_rel(
            q2,
            q3,
            TokenKind::LParen,
        ) && expect_rel(q3, q4, TokenKind::RParen) && expressions::block_post(q4, post, fuel)
}

/// What one `maybe_item` call does: which outcome comes on which tokens,
/// and what each outcome consumed — the whole declaration for `Item`,
/// exactly the `pub` for `Modifiers`, nothing for `NoItem`.  One unit of
/// fuel is spent to describe the nested declaration, since its block body
/// can in turn hold declarations.
/// The fuel-free part of `maybe_item_post`: the outcome table and what
/// each outcome consumed.
pub open spec fn maybe_item_shape(pre: Parser, post: Parser, res: MaybeItem) -> bool {
    &&& parse_step(pre, post)
    &&& (pre.cur() == TokenKind::FnKw || (pre.cur() == TokenKind::PubKw && pre.peek(1)
        == TokenKind::FnKw)) ==> res == MaybeItem::Item(NodeKind::FnDef)
    &&& (pre.cur() == TokenKind::PubKw && pre.peek(1) != TokenKind::FnKw) ==> res
        == MaybeItem::Modifiers
    &&& (pre.cur() != TokenKind::FnKw && pre.cur() != TokenKind::PubKw) ==> res
        == MaybeItem::NoItem
    &&& match res {
        MaybeItem::Item(kind) => kind == NodeKind::FnDef && post.cursor() > pre.cursor(),
        MaybeItem::Modifiers => bump_rel(pre, post),
        MaybeItem::NoItem => same_state(pre, post),
    }
}

pub open spec fn maybe_item_post(pre: Parser, post: Parser, res: MaybeItem, fuel: nat) -> bool
    decreases fuel, 4int,
{
    &&& maybe_item_shape(pre, post, res)
    &&& res matches MaybeItem::Item(kind) ==> (fuel > 0 ==> exists|q: Parser|
        #[trigger] eat_rel(pre, q, TokenKind::PubKw) && fn_def_post(q, post, (fuel - 1) as nat))
}

/// Attempts a declaration at the cursor.  The caller owns the node being
/// built: on `Item` it completes it with the returned kind, on `Modifiers`
/// it abandons it and reports the dangling modifiers, on `NoItem` it falls
/// through to the expression-statement branch with the state untouched.
pub fn maybe_item(p: &mut Parser) -> (res: MaybeItem)
    requires
        old(p).wf(),
    ensures
        forall|fuel: nat| maybe_item_post(*old(p), *final(p), res, fuel),
        maybe_item_post(*old(p), *final(p), res, 0),
        res == MaybeItem::NoItem ==> *final(p) == *old(p),
    decreases p.toks().len() - p.cursor(), 2int,
{
    let ghost p0 = *p;
    let has_modifiers = p.eat(TokenKind::PubKw);
    if p.at(TokenKind::FnKw) {
        let ghost p1 = *p;
        fn_def(p);
        proof {
            lemma_extends_trans(p0, p1, *p);
            assert forall|fuel: nat| maybe_item_post(
                p0,
                *p,
                MaybeItem::Item(NodeKind::FnDef),
                fuel,
            ) by {
                if fuel > 0 {
                    assert(eat_rel(p0, p1, TokenKind::PubKw) && fn_def_post(
                        p1,
                        *p,
                        (fuel - 1) as nat,
                    ));
                }
            }
        }
        MaybeItem::Item(NodeKind::FnDef)
    } else if has_modifiers {
        MaybeItem::Modifiers
    } else {
        proof {
            lemma_extends_refl(*p);
        }
        MaybeItem::NoItem
    }
}

/// One function declaration: `fn`, a name, an empty parameter list and a
/// block body.  Richer signatures are a sibling concern; what matters here
/// is the statement-level dispatch around it.
fn fn_def(p: &mut Parser)
    requires
        old(p).wf(),
        old(p).cur() == TokenKind::FnKw,
    ensures
        forall|fuel: nat| fn_def_post(*old(p), *final(p), fuel),
        fn_def_post(*old(p), *final(p), 0),
    decreases p.toks().len() - p.cursor(), 1int,
{
    let ghost p0 = *p;
    p.bump();
    let ghost p1 = *p;
    p.expect(TokenKind::Ident);
    proof {
        lemma_extends_trans(p0, p1, *p);
    }
    let ghost p2 = *p;
    p.expect(TokenKind::LParen);
    proof {
        lemma_extends_trans(p0, p2, *p);
    }
    let ghost p3 = *p;
    p.expect(TokenKind::RParen);
    proof {
        lemma_extends_trans(p0, p3, *p);
    }
    let ghost p4 = *p;
    expressions::block(p);
    proof {
        lemma_extends_trans(p0, p4, *p);
        assert forall|fuel: nat| fn_def_post(p0, *p, fuel) by {
            assert(expressions::block_post(p4, *p, fuel));
            assert(bump_rel(p0, p1) && expect_rel(p1, p2, TokenKind::Ident) && expect_rel(
                p2,
                p3,
                TokenKind::LParen,
            ) && expect_rel(p3, p4, TokenKind::RParen) && expressions::block_post(p4, *p, fuel));
        }
    }
}

} // verus!
