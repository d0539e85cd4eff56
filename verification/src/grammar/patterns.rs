//! The pattern grammar, consumed through a narrow contract: `pattern`
//! consumes one pattern, and consumes at least one token whenever the
//! stream is not exhausted, so that the loops around it always progress.

use crate::events::Event;
use crate::grammar::atom::{literal_first, literal_first_spec};
use crate::parser::{lemma_extends_frame, lemma_extends_trans, parse_step, Parser};
use crate::syntax::{DiagKind, Diagnostic, NodeKind, TokenKind};
use vstd::prelude::*;

verus! {

/// The FIRST set of the pattern grammar.
pub open spec fn pattern_first_spec(k: TokenKind) -> bool {
    ||| k == TokenKind::Underscore
    ||| k == TokenKind::Ident
    ||| literal_first_spec(k)
}

/// What one `pattern` call does, exactly, for every input: a placeholder,
/// binding or literal pattern node wrapping the current token; on any other
/// token one diagnostic and exactly one token consumed; at the end of the
/// stream one diagnostic and nothing consumed.
pub open spec fn pattern_post(pre: Parser, post: Parser) -> bool {
    &&& parse_step(pre, post)
    &&& !pre.at_eof() ==> post.cursor() == pre.cursor() + 1
    &&& pre.at_eof() ==> post.cursor() == pre.cursor() && post.evs() == pre.evs()
        && post.diags() == pre.diags().push(
        (Diagnostic { kind: DiagKind::ExpectedPattern, pos: pre.pos }),
    )
    &&& pre.cur() == TokenKind::Underscore ==> post.evs() == pre.evs() + seq![
        (Event::Begin { kind: NodeKind::PlaceholderPat }),
        (Event::Leaf { token: pre.cur() }),
        Event::End,
    ] && post.diags() == pre.diags()
    &&& pre.cur() == TokenKind::Ident ==> post.evs() == pre.evs() + seq![
        (Event::Begin { kind: NodeKind::BindPat }),
        (Event::Leaf { token: pre.cur() }),
        Event::End,
    ] && post.diags() == pre.diags()
    &&& literal_first_spec(pre.cur()) ==> post.evs() == pre.evs() + seq![
        (Event::Begin { kind: NodeKind::LiteralPat }),
        (Event::Leaf { token: pre.cur() }),
        Event::End,
    ] && post.diags() == pre.diags()
    &&& (!pre.at_eof() && !pattern_first_spec(pre.cur())) ==> post.evs() == pre.evs().push(
        (Event::Leaf { token: pre.cur() }),
    ) && post.diags() == pre.diags().push(
        (Diagnostic { kind: DiagKind::ExpectedPattern, pos: pre.pos }),
    )
}

/// One pattern: a placeholder, a binding or a literal.  On any other token
/// a diagnostic is recorded and exactly one token is consumed, so that the
/// caller's loop makes progress; at the end of the stream nothing moves.
pub fn pattern(p: &mut Parser)
    requires
        old(p).wf(),
    ensures
        pattern_post(*old(p), *final(p)),
{
    let c = p.current();
    if c == TokenKind::Underscore {
        one_token_pattern(p, NodeKind::PlaceholderPat);
    } else if c == TokenKind::Ident {
        one_token_pattern(p, NodeKind::BindPat);
    } else if literal_first().contains(c) {
        assert(c != TokenKind::Eof);
        assert(!p.at_eof());
        one_token_pattern(p, NodeKind::LiteralPat);
    } else {
        p.err_and_bump(DiagKind::ExpectedPattern);
    }
}

/// A pattern node wrapping exactly the current token.
fn one_token_pattern(p: &mut Parser, kind: NodeKind)
    requires
        old(p).wf(),
        !old(p).at_eof(),
        kind != NodeKind::Tombstone,
    ensures
        parse_step(*old(p), *final(p)),
        final(p).cursor() == old(p).cursor() + 1,
        final(p).diags() == old(p).diags(),
        final(p).evs() == old(p).evs() + seq![
            (Event::Begin { kind }),
            (Event::Leaf { token: old(p).cur() }),
            Event::End,
        ],
{
    let ghost p0 = *p;
    let m = p.start();
    let ghost p1 = *p;
    p.bump();
    let ghost p2 = *p;
    let _cm = p.complete(m, kind);
    proof {
        lemma_extends_trans(p0, p1, p2);
        lemma_extends_frame(p0, p2, *p, m.index as int);
        assert(p0.marks().push(m.index).drop_last() =~= p0.marks());
        assert(p.evs() =~= p0.evs() + seq![
            (Event::Begin { kind }),
            (Event::Leaf { token: p0.cur() }),
            Event::End,
        ]);
    }
}

} // verus!
