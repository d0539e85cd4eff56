//! The lambda parameter-list grammar: `|` parameters `|`, each parameter a
//! pattern with an optional type ascription.

use crate::grammar::patterns::{pattern_post, pattern};
use crate::grammar::types::{ascription_post, ascription};
use crate::parser::{
    bump_rel, complete_rel, expect_rel, extends, lemma_extends_frame, lemma_extends_trans,
    parse_step, same_state, start_rel, Parser,
};
use crate::syntax::{NodeKind, TokenKind};
use vstd::prelude::*;

verus! {

/// What one `param` call does: a `Param` node holding a pattern and, iff a
/// `:` follows the pattern, a type ascription.
pub open spec fn param_post(pre: Parser, post: Parser) -> bool {
    &&& parse_step(pre, post)
    &&& post.cursor() > pre.cursor()
    &&& exists|q1: Parser, q2: Parser, q3: Parser|
        start_rel(pre, q1) && pattern_post(q1, q2) && (if q2.cur() == TokenKind::Colon {
            ascription_post(q2, q3)
        } else {
            q3 == q2
        }) && complete_rel(q3, post, pre.evs().len() as int, NodeKind::Param)
}

/// One step of the parameter loop: a parameter, then — unless the closing
/// `|` is next — an expected comma.
pub open spec fn param_item_rel(a: Parser, b: Parser) -> bool {
    &&& a.cur() != TokenKind::Pipe
    &&& !a.at_eof()
    &&& exists|q: Parser|
        param_post(a, q) && (if q.cur() != TokenKind::Pipe {
            expect_rel(q, b, TokenKind::Comma)
        } else {
            same_state(q, b)
        })
}

/// The parameter loop as a chain of states, one per iteration.
pub open spec fn params_chain(ch: Seq<Parser>) -> bool {
    forall|i: int| 0 <= i < ch.len() - 1 ==> param_item_rel(#[trigger] ch[i], ch[i + 1])
}

/// What one `param_list_opt_types` call does: the opening `|`, then the
/// parameter loop until the closing `|` or the end of the stream, then the
/// expected closing `|`, all inside a `ParamList` node.
pub open spec fn param_list_post(pre: Parser, post: Parser) -> bool {
    &&& parse_step(pre, post)
    &&& post.cursor() > pre.cursor()
    &&& exists|q1: Parser, q2: Parser, ch: Seq<Parser>, q3: Parser|
        start_rel(pre, q1) && bump_rel(q1, q2) && ch.len() >= 1 && ch.first() == q2
            && params_chain(ch) && (ch.last().cur() == TokenKind::Pipe || ch.last().at_eof())
            && expect_rel(ch.last(), q3, TokenKind::Pipe) && complete_rel(
            q3,
            post,
            pre.evs().len() as int,
            NodeKind::ParamList,
        )
}

/// One parameter: a pattern, optionally followed by a type ascription.
fn param(p: &mut Parser)
    requires
        old(p).wf(),
        !old(p).at_eof(),
    ensures
        param_post(*old(p), *final(p)),
{
    let ghost p0 = *p;
    let m = p.start();
    let ghost p1 = *p;
    pattern(p);
    proof {
        lemma_extends_trans(p0, p1, *p);
    }
    let ghost p2 = *p;
    if p.at(TokenKind::Colon) {
        ascription(p);
        proof {
            lemma_extends_trans(p0, p2, *p);
        }
    }
    let ghost p3 = *p;
    let _cm = p.complete(m, NodeKind::Param);
    proof {
        lemma_extends_frame(p0, p3, *p, m.index as int);
        assert(p0.marks().push(m.index).drop_last() =~= p0.marks());
        assert(start_rel(p0, p1) && pattern_post(p1, p2) && (if p2.cur() == TokenKind::Colon {
            ascription_post(p2, p3)
        } else {
            p3 == p2
        }) && complete_rel(p3, *p, p0.evs().len() as int, NodeKind::Param));
    }
}

/// A lambda parameter list: `|` parameters separated by commas `|`, the
/// parameter types optional.  A missing closing `|` or separator is
/// recorded and parsing continues.
#[verifier::loop_isolation(false)]
pub fn param_list_opt_types(p: &mut Parser)
    requires
        old(p).wf(),
        old(p).cur() == TokenKind::Pipe,
    ensures
        param_list_post(*old(p), *final(p)),
{
    let ghost p0 = *p;
    let m = p.start();
    let ghost p1 = *p;
    p.bump();
    proof {
        lemma_extends_trans(p0, p1, *p);
    }
    let ghost p2 = *p;
    let ghost mut ch: Seq<Parser> = seq![*p];
    while !p.at(TokenKind::Pipe) && !p.at_end()
        invariant
            p.wf(),
            extends(p0, *p),
            p.marks() == p0.marks().push(m.index),
            m.index == p0.evs().len(),
            p.cursor() > p0.cursor(),
            ch.len() >= 1,
            ch.first() == p2,
            ch.last() == *p,
            params_chain(ch),
        decreases p.toks().len() - p.cursor(),
    {
        let ghost pa = *p;
        param(p);
        proof {
            lemma_extends_trans(p0, pa, *p);
        }
        let ghost pb = *p;
        if !p.at(TokenKind::Pipe) {
            p.expect(TokenKind::Comma);
            proof {
                lemma_extends_trans(p0, pb, *p);
            }
        }
        proof {
            assert(param_item_rel(pa, *p)) by {
                assert(param_post(pa, pb) && (if pb.cur() != TokenKind::Pipe {
                    expect_rel(pb, *p, TokenKind::Comma)
                } else {
                    same_state(pb, *p)
                }));
            }
            assert forall|i: int| 0 <= i < ch.push(*p).len() - 1 implies param_item_rel(
                #[trigger] ch.push(*p)[i],
                ch.push(*p)[i + 1],
            ) by {
                if i < ch.len() - 1 {
                    assert(param_item_rel(ch[i], ch[i + 1]));
                } else {
                    assert(ch.push(*p)[i] == pa);
                    assert(ch.push(*p)[i + 1] == *p);
                }
            }
            ch = ch.push(*p);
        }
    }
    let ghost p3 = *p;
    p.expect(TokenKind::Pipe);
    proof {
        lemma_extends_trans(p0, p3, *p);
    }
    let ghost p4 = *p;
    let _cm = p.complete(m, NodeKind::ParamList);
    proof {
        lemma_extends_frame(p0, p4, *p, m.index as int);
        assert(p0.marks().push(m.index).drop_last() =~= p0.marks());
        assert(start_rel(p0, p1) && bump_rel(p1, p2) && ch.len() >= 1 && ch.first() == p2
            && params_chain(ch) && (ch.last().cur() == TokenKind::Pipe || ch.last().at_eof())
            && expect_rel(ch.last(), p4, TokenKind::Pipe) && complete_rel(
            p4,
            *p,
            p0.evs().len() as int,
            NodeKind::ParamList,
        ));
    }
}

} // verus!
