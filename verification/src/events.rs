//! The tree-building event stream and its balance invariants.
//!
//! The in-progress tree is an append-only sequence of events: `Begin` opens a
//! node, `Leaf` attaches one consumed token, `End` closes the most recently
//! opened node that is still open.  A `Begin` whose kind is `Tombstone` is
//! either an open marker or an abandoned one; a tree builder skips it, which
//! re-parents its children one level up.

use crate::syntax::{NodeKind, TokenKind};
use vstd::prelude::*;

verus! {

/// One tree-building event.
#[derive(Clone, Copy, PartialEq, Eq, Structural, Debug)]
pub enum Event {
    /// Opens a node.  While the node is open, and after an abandon, the kind
    /// is `Tombstone`; completing the node rewrites it to a concrete kind.
    Begin { kind: NodeKind },
    /// One consumed token.
    Leaf { token: TokenKind },
    /// Closes the innermost open node that has a concrete kind.
    End,
}

/// How one event changes the nesting depth of the stream: a completed
/// `Begin` opens a node, an `End` closes one, everything else is neutral.
pub open spec fn weight(e: Event) -> int {
    match e {
        Event::Begin { kind } => if kind == NodeKind::Tombstone { 0 } else { 1 },
        Event::Leaf { .. } => 0,
        Event::End => -1int,
    }
}

/// Completed `Begin` events minus `End` events.  A stream that describes a
/// finished forest of nodes has nesting zero.
pub open spec fn nesting(s: Seq<Event>) -> int
    decreases s.len(),
{
    if s.len() == 0 {
        0
    } else {
        nesting(s.drop_last()) + weight(s.last())
    }
}

/// The tokens attached by `Leaf` events, in stream order.  These are exactly
/// the tokens the parser has consumed: no token is dropped or re-ordered.
pub open spec fn leaf_tokens(s: Seq<Event>) -> Seq<TokenKind>
    decreases s.len(),
{
    if s.len() == 0 {
        Seq::empty()
    } else {
        leaf_tokens(s.drop_last()) + match s.last() {
            Event::Leaf { token } => seq![token],
            _ => Seq::empty(),
        }
    }
}

pub proof fn lemma_nesting_push(s: Seq<Event>, e: Event)
    ensures
        nesting(s.push(e)) == nesting(s) + weight(e),
{
    assert(s.push(e).drop_last() =~= s);
    assert(s.push(e).last() == e);
}

pub proof fn lemma_nesting_concat(a: Seq<Event>, b: Seq<Event>)
    ensures
        nesting(a + b) == nesting(a) + nesting(b),
    decreases b.len(),
{
    if b.len() == 0 {
        assert(a + b =~= a);
    } else {
        lemma_nesting_concat(a, b.drop_last());
        assert((a + b).drop_last() =~= a + b.drop_last());
        assert((a + b).last() == b.last());
    }
}

/// Splits the nesting of a stream at one position.
pub proof fn lemma_nesting_split(s: Seq<Event>, i: int)
    requires
        0 <= i < s.len(),
    ensures
        nesting(s) == nesting(s.subrange(0, i)) + weight(s[i]) + nesting(
            s.subrange(i + 1, s.len() as int),
        ),
{
    let pre = s.subrange(0, i);
    let mid = seq![s[i]];
    let post = s.subrange(i + 1, s.len() as int);
    assert(s =~= pre + mid + post);
    lemma_nesting_concat(pre + mid, post);
    lemma_nesting_concat(pre, mid);
    assert(mid.last() == s[i]);
    assert(mid.drop_last() =~= Seq::<Event>::empty());
    assert(nesting(Seq::<Event>::empty()) == 0);
    assert(nesting(mid) == weight(s[i]));
}

/// Proper nesting: no prefix of the stream closes more nodes than it
/// opened.  Together with `nesting(s) == 0` this is exactly the condition
/// for the completed `Begin`s and the `End`s to form a balanced, properly
/// nested forest.
pub open spec fn prefixes_nonneg(s: Seq<Event>) -> bool {
    forall|n: int| 0 <= n <= s.len() ==> nesting(#[trigger] s.subrange(0, n)) >= 0
}

/// Appending an event keeps every prefix non-negative, provided the new
/// full stream is non-negative too.
pub proof fn lemma_prefixes_push(s: Seq<Event>, e: Event)
    requires
        prefixes_nonneg(s),
        nesting(s) + weight(e) >= 0,
    ensures
        prefixes_nonneg(s.push(e)),
{
    let t = s.push(e);
    assert forall|n: int| 0 <= n <= t.len() implies nesting(#[trigger] t.subrange(0, n)) >= 0 by {
        if n <= s.len() {
            assert(t.subrange(0, n) =~= s.subrange(0, n));
        } else {
            assert(t.subrange(0, n) =~= t);
            lemma_nesting_push(s, e);
        }
    }
}

/// Dropping the last event keeps every prefix non-negative.
pub proof fn lemma_prefixes_drop_last(s: Seq<Event>)
    requires
        prefixes_nonneg(s),
        s.len() > 0,
    ensures
        prefixes_nonneg(s.drop_last()),
{
    let t = s.drop_last();
    assert forall|n: int| 0 <= n <= t.len() implies nesting(#[trigger] t.subrange(0, n)) >= 0 by {
        assert(t.subrange(0, n) =~= s.subrange(0, n));
    }
}

/// Rewriting a zero-weight placeholder `Begin` to a concrete one raises the
/// nesting of the whole stream, and of every prefix that covers it, by one;
/// in particular every prefix stays non-negative.
pub proof fn lemma_prefixes_update_begin(s: Seq<Event>, i: int, kind: NodeKind)
    requires
        prefixes_nonneg(s),
        0 <= i < s.len(),
        s[i] == (Event::Begin { kind: NodeKind::Tombstone }),
        kind != NodeKind::Tombstone,
    ensures
        prefixes_nonneg(s.update(i, (Event::Begin { kind }))),
        nesting(s.update(i, (Event::Begin { kind }))) == nesting(s) + 1,
{
    let u = s.update(i, Event::Begin { kind });
    lemma_nesting_split(s, i);
    lemma_nesting_split(u, i);
    assert(u.subrange(0, i) =~= s.subrange(0, i));
    assert(u.subrange(i + 1, u.len() as int) =~= s.subrange(i + 1, s.len() as int));
    assert forall|n: int| 0 <= n <= u.len() implies nesting(#[trigger] u.subrange(0, n)) >= 0 by {
        if n <= i {
            assert(u.subrange(0, n) =~= s.subrange(0, n));
        } else {
            let s1 = s.subrange(0, n);
            let u1 = u.subrange(0, n);
            lemma_nesting_split(s1, i);
            lemma_nesting_split(u1, i);
            assert(u1.subrange(0, i) =~= s1.subrange(0, i));
            assert(u1.subrange(i + 1, n) =~= s1.subrange(i + 1, n));
            assert(s1[i] == s[i]);
            assert(u1[i] == u[i]);
            assert(nesting(s.subrange(0, n)) >= 0);
            assert(nesting(u1) == nesting(s1) + 1);
        }
    }
}

pub proof fn lemma_leaves_push(s: Seq<Event>, e: Event)
    ensures
        leaf_tokens(s.push(e)) == leaf_tokens(s) + match e {
            Event::Leaf { token } => seq![token],
            _ => Seq::<TokenKind>::empty(),
        },
{
    assert(s.push(e).drop_last() =~= s);
    assert(s.push(e).last() == e);
}

pub proof fn lemma_leaves_concat(a: Seq<Event>, b: Seq<Event>)
    ensures
        leaf_tokens(a + b) == leaf_tokens(a) + leaf_tokens(b),
    decreases b.len(),
{
    if b.len() == 0 {
        assert(a + b =~= a);
        assert(leaf_tokens(a + b) =~= leaf_tokens(a) + leaf_tokens(b));
    } else {
        lemma_leaves_concat(a, b.drop_last());
        assert((a + b).drop_last() =~= a + b.drop_last());
        assert((a + b).last() == b.last());
        assert(leaf_tokens(a + b) =~= leaf_tokens(a) + leaf_tokens(b));
    }
}

/// Splits the leaf tokens of a stream at one position.
pub proof fn lemma_leaves_split(s: Seq<Event>, i: int)
    requires
        0 <= i < s.len(),
    ensures
        leaf_tokens(s) == leaf_tokens(s.subrange(0, i)) + (match s[i] {
            Event::Leaf { token } => seq![token],
            _ => Seq::<TokenKind>::empty(),
        }) + leaf_tokens(s.subrange(i + 1, s.len() as int)),
{
    let pre = s.subrange(0, i);
    let mid = seq![s[i]];
    let post = s.subrange(i + 1, s.len() as int);
    assert(s =~= pre + mid + post);
    lemma_leaves_concat(pre + mid, post);
    lemma_leaves_concat(pre, mid);
    assert(mid.last() == s[i]);
    assert(mid.drop_last() =~= Seq::<Event>::empty());
    assert(leaf_tokens(Seq::<Event>::empty()) =~= Seq::<TokenKind>::empty());
    assert(leaf_tokens(mid) =~= match s[i] {
        Event::Leaf { token } => seq![token],
        _ => Seq::<TokenKind>::empty(),
    });
}

} // verus!
