//! The parsing context: a cursor over the token stream, the event sink with
//! its marker stack, and the accumulated diagnostics.
//!
//! The context is owned by one parsing call chain and threaded by exclusive
//! mutable reference.  Its well-formedness (`Parser::wf`) says that the event
//! stream is balanced, that every open marker points at a `Tombstone` event,
//! that open markers are properly nested (their indices are increasing and
//! they are closed last-opened-first), and that the number of `start` calls
//! equals the number of `complete`-or-`abandon` calls plus the markers still
//! open.

use crate::events::{
    leaf_tokens, lemma_leaves_push, lemma_leaves_split, lemma_nesting_push, lemma_nesting_split,
    lemma_prefixes_drop_last, lemma_prefixes_push, lemma_prefixes_update_begin, nesting,
    prefixes_nonneg, Event,
};
use crate::syntax::{DiagKind, Diagnostic, NodeKind, TokenKind};
use vstd::pervasive::VecAdditionalExecFns;
use vstd::prelude::*;

verus! {

/// A handle to one not-yet-finished tree node, identified by the index of
/// its `Begin` event.  Created by `Parser::start`; must be closed exactly
/// once, by `Parser::complete` or `Parser::abandon`, and only while it is
/// the most recently opened marker still open.
#[derive(Debug)]
pub struct Marker {
    /// Index of the node's `Begin` event in the event stream.
    pub index: usize,
}

/// The result of completing a marker: the caller learns where the node
/// starts and which kind it was given, and may use that to wrap it further.
#[derive(Clone, Copy, PartialEq, Eq, Structural, Debug)]
pub struct CompletedMarker {
    /// Index of the node's `Begin` event in the event stream.
    pub index: usize,
    /// The node kind the marker was completed with.
    pub kind: NodeKind,
}

/// The parser state.
pub struct Parser {
    /// The classified token stream, produced externally and never mutated.
    pub tokens: Vec<TokenKind>,
    /// Cursor: index of the current token.
    pub pos: usize,
    /// The tree-building events produced so far.
    pub events: Vec<Event>,
    /// Indices of the `Begin` events of the markers that are still open,
    /// in the order they were opened (so strictly increasing).
    pub open_markers: Vec<usize>,
    /// The diagnostics raised so far, in order.
    pub diagnostics: Vec<Diagnostic>,
    /// How many markers were ever started.
    pub begun: Ghost<nat>,
    /// How many markers were ever completed or abandoned.
    pub ended: Ghost<nat>,
}

impl Parser {
    /// The token stream.
    pub open spec fn toks(self) -> Seq<TokenKind> {
        self.tokens@
    }

    /// The cursor position.
    pub open spec fn cursor(self) -> int {
        self.pos as int
    }

    /// The events produced so far.
    pub open spec fn evs(self) -> Seq<Event> {
        self.events@
    }

    /// The indices of the markers still open.
    pub open spec fn marks(self) -> Seq<usize> {
        self.open_markers@
    }

    /// The diagnostics raised so far.
    pub open spec fn diags(self) -> Seq<Diagnostic> {
        self.diagnostics@
    }

    /// How many markers were ever started.
    pub open spec fn starts(self) -> nat {
        self.begun@
    }

    /// How many markers were ever completed or abandoned.
    pub open spec fn closes(self) -> nat {
        self.ended@
    }

    /// The kind of the current token; `Eof` past the end of the stream.
    pub open spec fn cur(self) -> TokenKind {
        if self.cursor() < self.toks().len() {
            self.toks()[self.cursor()]
        } else {
            TokenKind::Eof
        }
    }

    /// The kind of the token `n` places ahead of the cursor; `Eof` past the
    /// end of the stream.
    pub open spec fn peek(self, n: int) -> TokenKind {
        if self.cursor() + n < self.toks().len() {
            self.toks()[self.cursor() + n]
        } else {
            TokenKind::Eof
        }
    }

    /// Whether the cursor is past the last token of the stream.
    pub open spec fn at_eof(self) -> bool {
        self.cursor() >= self.toks().len()
    }

    /// Well-formedness: the cursor is in bounds; every open marker points at
    /// a `Tombstone` `Begin` event; open markers are strictly nested; the
    /// event stream is balanced; and the marker counters agree with the
    /// markers still open.
    pub open spec fn wf(self) -> bool {
        &&& self.cursor() <= self.toks().len()
        &&& forall|i: int|
            0 <= i < self.marks().len() ==> (self.marks()[i] as int) < self.evs().len()
                && self.evs()[self.marks()[i] as int] == (Event::Begin {
                kind: NodeKind::Tombstone,
            })
        &&& forall|i: int, j: int|
            0 <= i < j < self.marks().len() ==> self.marks()[i] < self.marks()[j]
        &&& nesting(self.evs()) == 0
        &&& prefixes_nonneg(self.evs())
        &&& self.starts() == self.closes() + self.marks().len()
    }

    /// A fresh parser over the given token stream.
    pub fn new(tokens: Vec<TokenKind>) -> (p: Parser)
        ensures
            p.wf(),
            p.toks() == tokens@,
            p.cursor() == 0,
            p.evs() == Seq::<Event>::empty(),
            p.marks() == Seq::<usize>::empty(),
            p.diags() == Seq::<Diagnostic>::empty(),
            p.starts() == 0,
            p.closes() == 0,
    {
        let p = Parser {
            tokens,
            pos: 0,
            events: Vec::new(),
            open_markers: Vec::new(),
            diagnostics: Vec::new(),
            begun: Ghost(0),
            ended: Ghost(0),
        };
        proof {
            assert(p.evs() =~= Seq::<Event>::empty());
            assert(p.marks() =~= Seq::<usize>::empty());
            assert(p.diags() =~= Seq::<Diagnostic>::empty());
            assert forall|n: int| 0 <= n <= p.evs().len() implies nesting(
                #[trigger] p.evs().subrange(0, n),
            ) >= 0 by {
                assert(p.evs().subrange(0, n) =~= Seq::<Event>::empty());
            }
        }
        p
    }

    /// The kind of the current token.
    pub fn current(&self) -> (k: TokenKind)
        ensures
            k == self.cur(),
    {
        if self.pos < self.tokens.len() {
            self.tokens[self.pos]
        } else {
            TokenKind::Eof
        }
    }

    /// Bounded lookahead: the kind of the token `n` places ahead.
    pub fn nth(&self, n: usize) -> (k: TokenKind)
        ensures
            k == self.peek(n as int),
    {
        if self.pos >= self.tokens.len() {
            TokenKind::Eof
        } else if n >= self.tokens.len() - self.pos {
            TokenKind::Eof
        } else {
            self.tokens[self.pos + n]
        }
    }

    /// Whether the current token is of kind `k`.
    pub fn at(&self, k: TokenKind) -> (r: bool)
        ensures
            r == (self.cur() == k),
    {
        self.current() == k
    }

    /// Whether the cursor is past the last token.
    pub fn at_end(&self) -> (r: bool)
        ensures
            r == self.at_eof(),
    {
        self.pos >= self.tokens.len()
    }

    /// Unconditional single-token advance: attaches the current token as a
    /// leaf and moves the cursor.  Used only after a precondition check.
    pub fn bump(&mut self)
        requires
            old(self).wf(),
            !old(self).at_eof(),
        ensures
            final(self).wf(),
            extends(*old(self), *final(self)),
            final(self).cursor() == old(self).cursor() + 1,
            final(self).evs() == old(self).evs().push(Event::Leaf { token: old(self).cur() }),
            final(self).marks() == old(self).marks(),
            final(self).diags() == old(self).diags(),
            final(self).starts() == old(self).starts(),
            final(self).closes() == old(self).closes(),
    {
        let n: usize = self.tokens.len();
        let t = self.tokens[self.pos];
        self.events.push(Event::Leaf { token: t });
        assert(self.pos < n);
        self.pos = self.pos + 1;
        proof {
            lemma_nesting_push(old(self).evs(), Event::Leaf { token: t });
            lemma_prefixes_push(old(self).evs(), Event::Leaf { token: t });
            lemma_leaves_push(old(self).evs(), Event::Leaf { token: t });
            assert(self.evs().subrange(0, old(self).evs().len() as int) =~= old(self).evs());
            assert(leaf_tokens(self.evs()) =~= leaf_tokens(old(self).evs()) + old(self).toks().subrange(old(self).cursor(), self.cursor()));
            assert(self.diags().subrange(0, old(self).diags().len() as int) =~= old(self).diags());
        }
    }

    /// Raises a diagnostic at the current position without advancing.
    pub fn error(&mut self, kind: DiagKind)
        requires
            old(self).wf(),
        ensures
            final(self).wf(),
            extends(*old(self), *final(self)),
            final(self).cursor() == old(self).cursor(),
            final(self).evs() == old(self).evs(),
            final(self).marks() == old(self).marks(),
            final(self).diags() == old(self).diags().push(
                (Diagnostic { kind, pos: old(self).pos }),
            ),
            final(self).starts() == old(self).starts(),
            final(self).closes() == old(self).closes(),
    {
        let d = Diagnostic { kind, pos: self.pos };
        self.diagnostics.push(d);
        proof {
            assert(self.evs().subrange(0, old(self).evs().len() as int) =~= old(self).evs());
            assert(leaf_tokens(self.evs()) =~= leaf_tokens(old(self).evs()) + old(self).toks().subrange(old(self).cursor(), self.cursor()));
            assert(self.diags().subrange(0, old(self).diags().len() as int) =~= old(self).diags());
        }
    }

    /// Conditional advance: consumes the current token iff it is of kind
    /// `k`.
    pub fn eat(&mut self, k: TokenKind) -> (r: bool)
        requires
            old(self).wf(),
            k != TokenKind::Eof,
        ensures
            final(self).wf(),
            extends(*old(self), *final(self)),
            r == (old(self).cur() == k),
            final(self).marks() == old(self).marks(),
            final(self).diags() == old(self).diags(),
            final(self).starts() == old(self).starts(),
            final(self).closes() == old(self).closes(),
            r ==> final(self).cursor() == old(self).cursor() + 1 && final(self).evs() == old(self).evs().push(Event::Leaf { token: k }),
            !r ==> *final(self) == *old(self),
    {
        if self.at(k) {
            self.bump();
            true
        } else {
            proof {
                lemma_extends_refl(*self);
            }
            false
        }
    }

    /// Consume-or-record: advances iff the current token is of kind `k`,
    /// else raises a diagnostic and does not advance, so that parsing can
    /// continue assuming the token will appear later.
    pub fn expect(&mut self, k: TokenKind) -> (r: bool)
        requires
            old(self).wf(),
            k != TokenKind::Eof,
        ensures
            final(self).wf(),
            extends(*old(self), *final(self)),
            r == (old(self).cur() == k),
            final(self).marks() == old(self).marks(),
            final(self).starts() == old(self).starts(),
            final(self).closes() == old(self).closes(),
            r ==> final(self).cursor() == old(self).cursor() + 1 && final(self).evs() == old(self).evs().push(Event::Leaf { token: k }) && final(self).diags() == old(self).diags(),
            !r ==> final(self).cursor() == old(self).cursor() && final(self).evs() == old(self).evs() && final(self).diags() == old(self).diags().push(
                (Diagnostic { kind: DiagKind::ExpectedToken(k), pos: old(self).pos }),
            ),
    {
        if self.eat(k) {
            true
        } else {
            self.error(DiagKind::ExpectedToken(k));
            false
        }
    }

    /// The sole recovery primitive: raises a diagnostic and, unless the
    /// stream is exhausted, consumes exactly one token.
    pub fn err_and_bump(&mut self, kind: DiagKind)
        requires
            old(self).wf(),
        ensures
            final(self).wf(),
            extends(*old(self), *final(self)),
            final(self).marks() == old(self).marks(),
            final(self).starts() == old(self).starts(),
            final(self).closes() == old(self).closes(),
            final(self).diags() == old(self).diags().push(
                (Diagnostic { kind, pos: old(self).pos }),
            ),
            !old(self).at_eof() ==> final(self).cursor() == old(self).cursor() + 1 && final(self).evs() == old(self).evs().push(Event::Leaf { token: old(self).cur() }),
            old(self).at_eof() ==> final(self).cursor() == old(self).cursor() && final(self).evs()
                == old(self).evs(),
    {
        let ghost p0 = *self;
        self.error(kind);
        if !self.at_end() {
            let ghost p1 = *self;
            self.bump();
            proof {
                lemma_extends_trans(p0, p1, *self);
            }
        }
    }

    /// Opens a node at the current position without consuming input.  May be
    /// nested freely before any other open marker completes.
    pub fn start(&mut self) -> (m: Marker)
        requires
            old(self).wf(),
        ensures
            final(self).wf(),
            extends(*old(self), *final(self)),
            m.index == old(self).evs().len(),
            final(self).cursor() == old(self).cursor(),
            final(self).evs() == old(self).evs().push(
                (Event::Begin { kind: NodeKind::Tombstone }),
            ),
            final(self).marks() == old(self).marks().push(m.index),
            final(self).diags() == old(self).diags(),
            final(self).starts() == old(self).starts() + 1,
            final(self).closes() == old(self).closes(),
    {
        let idx: usize = self.events.len();
        self.events.push(Event::Begin { kind: NodeKind::Tombstone });
        self.open_markers.push(idx);
        self.begun = Ghost(self.begun@ + 1);
        proof {
            lemma_nesting_push(old(self).evs(), Event::Begin { kind: NodeKind::Tombstone });
            lemma_prefixes_push(old(self).evs(), Event::Begin { kind: NodeKind::Tombstone });
            lemma_leaves_push(old(self).evs(), Event::Begin { kind: NodeKind::Tombstone });
            assert(self.evs().subrange(0, old(self).evs().len() as int) =~= old(self).evs());
            assert(leaf_tokens(self.evs()) =~= leaf_tokens(old(self).evs()) + old(self).toks().subrange(old(self).cursor(), self.cursor()));
            assert(self.diags().subrange(0, old(self).diags().len() as int) =~= old(self).diags());
        }
        Marker { index: idx }
    }

    /// Closes the given marker, assigning the node its kind.  The marker
    /// must be the most recently opened marker still open (LIFO discipline);
    /// the node spans every token and node produced since the marker was
    /// opened.
    pub fn complete(&mut self, m: Marker, kind: NodeKind) -> (c: CompletedMarker)
        requires
            old(self).wf(),
            old(self).marks().len() > 0,
            m.index == old(self).marks().last(),
            kind != NodeKind::Tombstone,
        ensures
            final(self).wf(),
            final(self).toks() == old(self).toks(),
            final(self).cursor() == old(self).cursor(),
            final(self).evs() == old(self).evs().update(
                m.index as int,
                (Event::Begin { kind }),
            ).push(Event::End),
            final(self).evs().len() == old(self).evs().len() + 1,
            final(self).evs().subrange(0, m.index as int) == old(self).evs().subrange(
                0,
                m.index as int,
            ),
            leaf_tokens(final(self).evs()) == leaf_tokens(old(self).evs()),
            final(self).marks() == old(self).marks().drop_last(),
            final(self).diags() == old(self).diags(),
            final(self).starts() == old(self).starts(),
            final(self).closes() == old(self).closes() + 1,
            c == (CompletedMarker { index: m.index, kind }),
    {
        let i: usize = m.index;
        proof {
            assert(old(self).marks()[old(self).marks().len() - 1] == m.index);
            assert((i as int) < self.evs().len());
            assert(self.evs()[i as int] == (Event::Begin { kind: NodeKind::Tombstone }));
        }
        self.events.set(i, Event::Begin { kind });
        self.events.push(Event::End);
        self.open_markers.pop();
        self.ended = Ghost(self.ended@ + 1);
        proof {
            let e0 = old(self).evs();
            let mi = i as int;
            let upd = e0.update(mi, Event::Begin { kind });
            // Nesting: the tombstone at `mi` had weight 0; the new `Begin`
            // and the appended `End` cancel.
            lemma_nesting_split(e0, mi);
            lemma_nesting_split(upd, mi);
            assert(upd.subrange(0, mi) =~= e0.subrange(0, mi));
            assert(upd.subrange(mi + 1, upd.len() as int) =~= e0.subrange(
                mi + 1,
                e0.len() as int,
            ));
            lemma_nesting_push(upd, Event::End);
            lemma_prefixes_update_begin(e0, mi, kind);
            lemma_prefixes_push(upd, Event::End);
            assert(self.evs() =~= upd.push(Event::End));
            assert(nesting(self.evs()) == 0);
            // Leaves: neither the rewrite nor the `End` adds or drops one.
            lemma_leaves_split(e0, mi);
            lemma_leaves_split(upd, mi);
            lemma_leaves_push(upd, Event::End);
            assert(leaf_tokens(self.evs()) =~= leaf_tokens(e0));
            assert(self.evs().subrange(0, mi) =~= e0.subrange(0, mi));
            // The remaining open markers all lie strictly below `mi`, so
            // they still point at untouched tombstones.
            assert(self.marks() =~= old(self).marks().drop_last());
            assert forall|j: int| 0 <= j < self.marks().len() implies (self.marks()[j] as int)
                < self.evs().len() && self.evs()[self.marks()[j] as int] == (Event::Begin {
                kind: NodeKind::Tombstone,
            }) by {
                assert(old(self).marks()[j] < old(self).marks()[old(self).marks().len() - 1]);
            }
        }
        CompletedMarker { index: i, kind }
    }

    /// Abandons the given marker: the node's placeholder is erased and any
    /// children already produced since the marker opened are re-parented to
    /// the marker's parent.  The same LIFO discipline as for `complete`
    /// applies.
    pub fn abandon(&mut self, m: Marker)
        requires
            old(self).wf(),
            old(self).marks().len() > 0,
            m.index == old(self).marks().last(),
        ensures
            final(self).wf(),
            final(self).toks() == old(self).toks(),
            final(self).cursor() == old(self).cursor(),
            (m.index as int) + 1 == old(self).evs().len() ==> final(self).evs() == old(self).evs().drop_last(),
            (m.index as int) + 1 != old(self).evs().len() ==> final(self).evs() == old(self).evs(),
            final(self).evs().len() >= m.index as int,
            final(self).evs().subrange(0, m.index as int) == old(self).evs().subrange(
                0,
                m.index as int,
            ),
            leaf_tokens(final(self).evs()) == leaf_tokens(old(self).evs()),
            final(self).marks() == old(self).marks().drop_last(),
            final(self).diags() == old(self).diags(),
            final(self).starts() == old(self).starts(),
            final(self).closes() == old(self).closes() + 1,
    {
        let i: usize = m.index;
        proof {
            assert(old(self).marks()[old(self).marks().len() - 1] == m.index);
            assert((i as int) < self.evs().len());
            assert(self.evs()[i as int] == (Event::Begin { kind: NodeKind::Tombstone }));
        }
        let n: usize = self.events.len();
        assert(i < n);
        if i + 1 == n {
            self.events.pop();
            proof {
                let e0 = old(self).evs();
                assert(self.evs() =~= e0.drop_last());
                assert(nesting(e0) == nesting(e0.drop_last()) + crate::events::weight(e0.last()));
                lemma_prefixes_drop_last(e0);
                assert(leaf_tokens(self.evs()) =~= leaf_tokens(e0));
                assert(self.evs().subrange(0, i as int) =~= e0.subrange(0, i as int));
            }
        } else {
            proof {
                assert(self.evs().subrange(0, i as int) =~= old(self).evs().subrange(0, i as int));
            }
        }
        self.open_markers.pop();
        self.ended = Ghost(self.ended@ + 1);
        proof {
            assert(self.marks() =~= old(self).marks().drop_last());
            assert forall|j: int| 0 <= j < self.marks().len() implies (self.marks()[j] as int)
                < self.evs().len() && self.evs()[self.marks()[j] as int] == (Event::Begin {
                kind: NodeKind::Tombstone,
            }) by {
                assert(old(self).marks()[j] < old(self).marks()[old(self).marks().len() - 1]);
            }
        }
    }
}

/// One parse call extended the state of another: the token stream is
/// untouched, the cursor only moved forward, the events and diagnostics
/// produced before are still there unchanged, and the leaves added to the
/// tree are exactly the tokens consumed, in order — no token is dropped or
/// re-ordered.
pub open spec fn extends(a: Parser, b: Parser) -> bool {
    &&& b.toks() == a.toks()
    &&& a.cursor() <= b.cursor() <= a.toks().len()
    &&& a.evs().len() <= b.evs().len()
    &&& b.evs().subrange(0, a.evs().len() as int) == a.evs()
    &&& leaf_tokens(b.evs()) == leaf_tokens(a.evs()) + a.toks().subrange(a.cursor(), b.cursor())
    &&& a.diags().len() <= b.diags().len()
    &&& b.diags().subrange(0, a.diags().len() as int) == a.diags()
}

/// What every grammar function ensures of the parser it was handed: the
/// state is extended, stays well-formed, and the open markers are exactly
/// those of the caller — each function closes every marker it opens.
pub open spec fn parse_step(a: Parser, b: Parser) -> bool {
    &&& extends(a, b)
    &&& b.wf()
    &&& b.marks() == a.marks()
}

/// `a` and `b` agree on everything a parse function can observe: the same
/// tokens, cursor, events, open markers and diagnostics.
pub open spec fn same_state(a: Parser, b: Parser) -> bool {
    &&& b.toks() == a.toks()
    &&& b.cursor() == a.cursor()
    &&& b.evs() == a.evs()
    &&& b.marks() == a.marks()
    &&& b.diags() == a.diags()
}

/// `b` is `a` with exactly the current token consumed as a leaf: the effect
/// of `Parser::bump`.
pub open spec fn bump_rel(a: Parser, b: Parser) -> bool {
    &&& b.toks() == a.toks()
    &&& b.cursor() == a.cursor() + 1
    &&& b.evs() == a.evs().push(Event::Leaf { token: a.cur() })
    &&& b.marks() == a.marks()
    &&& b.diags() == a.diags()
}

/// The effect of `Parser::error`: one diagnostic at the cursor, nothing
/// else moved.
pub open spec fn error_rel(a: Parser, b: Parser, kind: DiagKind) -> bool {
    &&& b.toks() == a.toks()
    &&& b.cursor() == a.cursor()
    &&& b.evs() == a.evs()
    &&& b.marks() == a.marks()
    &&& b.diags() == a.diags().push((Diagnostic { kind, pos: a.pos }))
}

/// The effect of `Parser::eat(k)`: a bump exactly when the current token is
/// `k`, else nothing.
pub open spec fn eat_rel(a: Parser, b: Parser, k: TokenKind) -> bool {
    if a.cur() == k {
        bump_rel(a, b)
    } else {
        same_state(a, b)
    }
}

/// The effect of `Parser::expect(k)`: a bump exactly when the current token
/// is `k`, else one expected-token diagnostic and nothing consumed.
pub open spec fn expect_rel(a: Parser, b: Parser, k: TokenKind) -> bool {
    if a.cur() == k {
        bump_rel(a, b)
    } else {
        error_rel(a, b, DiagKind::ExpectedToken(k))
    }
}

/// The effect of `Parser::start`: a placeholder event appended and its
/// index pushed onto the open-marker stack.
pub open spec fn start_rel(a: Parser, b: Parser) -> bool {
    &&& b.toks() == a.toks()
    &&& b.cursor() == a.cursor()
    &&& b.evs() == a.evs().push((Event::Begin { kind: NodeKind::Tombstone }))
    &&& b.marks() == a.marks().push(a.evs().len() as usize)
    &&& b.diags() == a.diags()
}

/// The effect of `Parser::complete` on the marker opened at event index
/// `i`: the placeholder is rewritten to `kind` and an `End` is appended.
pub open spec fn complete_rel(a: Parser, b: Parser, i: int, kind: NodeKind) -> bool {
    &&& b.toks() == a.toks()
    &&& b.cursor() == a.cursor()
    &&& b.evs() == a.evs().update(i, (Event::Begin { kind })).push(Event::End)
    &&& b.marks() == a.marks().drop_last()
    &&& b.diags() == a.diags()
}

/// The effect of `Parser::abandon` on the marker opened at event index `i`:
/// the placeholder is popped when nothing followed it, else left as a
/// tombstone so its children re-parent one level up.
pub open spec fn abandon_rel(a: Parser, b: Parser, i: int) -> bool {
    &&& b.toks() == a.toks()
    &&& b.cursor() == a.cursor()
    &&& b.marks() == a.marks().drop_last()
    &&& b.diags() == a.diags()
    &&& if i + 1 == a.evs().len() {
        b.evs() == a.evs().drop_last()
    } else {
        b.evs() == a.evs()
    }
}

/// A parse call that opened one node of kind `kind` at its entry position
/// and extended the state.  Used where a grammar refers to itself (an
/// `else if` chain, a declaration body) and the inner span's own contract
/// carries the detail.
pub open spec fn node_span(pre: Parser, post: Parser, kind: NodeKind) -> bool {
    &&& parse_step(pre, post)
    &&& post.cursor() > pre.cursor()
    &&& pre.evs().len() < post.evs().len()
    &&& post.evs()[pre.evs().len() as int] == (Event::Begin { kind })
}

pub proof fn lemma_extends_refl(p: Parser)
    requires
        p.cursor() <= p.toks().len(),
    ensures
        extends(p, p),
{
    assert(p.evs().subrange(0, p.evs().len() as int) =~= p.evs());
    assert(leaf_tokens(p.evs()) =~= leaf_tokens(p.evs()) + p.toks().subrange(
        p.cursor(),
        p.cursor(),
    ));
    assert(p.diags().subrange(0, p.diags().len() as int) =~= p.diags());
}

pub proof fn lemma_extends_trans(a: Parser, b: Parser, c: Parser)
    requires
        extends(a, b),
        extends(b, c),
    ensures
        extends(a, c),
{
    assert(c.evs().subrange(0, a.evs().len() as int) =~= a.evs());
    assert(c.diags().subrange(0, a.diags().len() as int) =~= a.diags());
    assert(a.toks().subrange(a.cursor(), b.cursor()) + a.toks().subrange(b.cursor(), c.cursor())
        =~= a.toks().subrange(a.cursor(), c.cursor()));
    assert(leaf_tokens(c.evs()) =~= leaf_tokens(a.evs()) + a.toks().subrange(
        a.cursor(),
        c.cursor(),
    ));
}

/// Frames a marker operation (`start`, `complete` or `abandon`) performed at
/// or above event index `i` into an `extends` chain that began when the
/// stream was only `i` events long: such an operation touches no earlier
/// event, no leaf, no token and no diagnostic.
pub proof fn lemma_extends_frame(a: Parser, b: Parser, c: Parser, i: int)
    requires
        extends(a, b),
        a.evs().len() <= i <= b.evs().len(),
        c.toks() == b.toks(),
        c.cursor() == b.cursor(),
        c.diags() == b.diags(),
        c.evs().len() >= i,
        c.evs().subrange(0, i) == b.evs().subrange(0, i),
        leaf_tokens(c.evs()) == leaf_tokens(b.evs()),
    ensures
        extends(a, c),
{
    assert(c.evs().subrange(0, a.evs().len() as int) =~= b.evs().subrange(
        0,
        a.evs().len() as int,
    ));
    assert(c.diags().subrange(0, a.diags().len() as int) =~= a.diags());
}

/// Marker balance: on any well-formed parser state with no marker left
/// open, the number of `start` calls ever made equals the number of
/// `complete`-or-`abandon` calls, and the event stream is balanced.
pub proof fn lemma_marker_balance(p: Parser)
    requires
        p.wf(),
        p.marks().len() == 0,
    ensures
        p.starts() == p.closes(),
        nesting(p.evs()) == 0,
        prefixes_nonneg(p.evs()),
{
}

} // verus!
