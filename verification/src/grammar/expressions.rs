//! The expression entry points: a full expression, an expression with
//! structure literals forbidden, and a required block.
//!
//! Operator precedence for general binary expressions lives in a sibling
//! component; in this core an expression is an atom, so these entry points
//! dispatch straight into the atom grammar with the right restrictions.

use crate::grammar::{atom, Restrictions};
use crate::parser::{error_rel, parse_step, CompletedMarker, Parser};
use crate::syntax::{DiagKind, NodeKind, TokenKind};
use crate::token_set::TokenSet;
use vstd::prelude::*;

verus! {

/// What one `block` call does: at `{` (the only token a block can begin
/// with here), exactly what `block_expr` does, described at the given
/// recursion depth; anywhere else one expected-block diagnostic and nothing
/// consumed.
pub open spec fn block_post(pre: Parser, post: Parser, fuel: nat) -> bool
    decreases fuel, 10int,
{
    &&& parse_step(pre, post)
    &&& if pre.cur() == TokenKind::LCurly {
        exists|c: CompletedMarker|
            #[trigger] atom::node_frame(pre, post, c, NodeKind::BlockExpr) && atom::block_expr_post(
                pre,
                post,
                c,
                fuel,
            )
    } else {
        error_rel(pre, post, DiagKind::ExpectedBlock)
    }
}

/// The FIRST set of the expression grammar.
pub fn expr_first() -> (r: TokenSet)
    ensures
        forall|k: TokenKind| #[trigger] r.has(k) == atom::atom_first_spec(k),
{
    atom::atom_expr_first()
}

/// One expression, with no extra restriction.  Either completes a node or —
/// on input no expression can begin — records one diagnostic; in every case
/// at least one token is consumed while the stream is not exhausted.
pub fn expr(p: &mut Parser) -> (res: Option<CompletedMarker>)
    requires
        old(p).wf(),
    ensures
        forall|fuel: nat| atom::atom_full(*old(p), *final(p), false, res, fuel),
        forall|fuel: nat| atom::expr_step(*old(p), *final(p), false, fuel),
        atom::atom_step(*old(p), *final(p), false, res),
    decreases p.toks().len() - p.cursor(), 3int,
{
    let r = Restrictions::none();
    let res = atom::atom_expr(p, r);
    proof {
        assert forall|fuel: nat| atom::atom_full(*old(p), *p, false, res, fuel) by {
            assert(atom::atom_full(*old(p), *p, r.forbid_structs, res, fuel));
        }
        assert forall|fuel: nat| atom::expr_step(*old(p), *p, false, fuel) by {
            assert(atom::atom_step(*old(p), *p, false, res));
            assert(atom::atom_full(*old(p), *p, false, res, fuel));
        }
    }
    res
}

/// One expression with structure literals forbidden: used for the condition
/// of a conditional and the subject of a match, where a bare `{` must begin
/// the body block.  The restriction applies to this sub-expression only; the
/// callee hands the default restrictions to its own recursive calls.
pub fn expr_no_struct(p: &mut Parser) -> (res: Option<CompletedMarker>)
    requires
        old(p).wf(),
    ensures
        forall|fuel: nat| atom::atom_full(*old(p), *final(p), true, res, fuel),
        forall|fuel: nat| atom::expr_step(*old(p), *final(p), true, fuel),
        atom::atom_step(*old(p), *final(p), true, res),
    decreases p.toks().len() - p.cursor(), 3int,
{
    let r = Restrictions::no_structs();
    let res = atom::atom_expr(p, r);
    proof {
        assert forall|fuel: nat| atom::atom_full(*old(p), *p, true, res, fuel) by {
            assert(atom::atom_full(*old(p), *p, r.forbid_structs, res, fuel));
        }
        assert forall|fuel: nat| atom::expr_step(*old(p), *p, true, fuel) by {
            assert(atom::atom_step(*old(p), *p, true, res));
            assert(atom::atom_full(*old(p), *p, true, res, fuel));
        }
    }
    res
}

/// A required block.  If the cursor is not at `{`, a diagnostic is recorded
/// and nothing is consumed; tree construction continues.
pub fn block(p: &mut Parser)
    requires
        old(p).wf(),
    ensures
        forall|fuel: nat| block_post(*old(p), *final(p), fuel),
        block_post(*old(p), *final(p), 0),
    decreases p.toks().len() - p.cursor(), 2int,
{
    if p.at(TokenKind::LCurly) {
        let bc = atom::block_expr(p);
        proof {
            assert forall|fuel: nat| block_post(*old(p), *p, fuel) by {
                assert(atom::node_frame(*old(p), *p, bc, NodeKind::BlockExpr));
                assert(atom::block_expr_post(*old(p), *p, bc, fuel));
            }
        }
    } else {
        p.error(DiagKind::ExpectedBlock);
    }
}

} // verus!
