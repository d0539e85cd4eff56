//! Error-tolerant recursive-descent parser core for an expression and
//! statement grammar.
//!
//! The crate consumes a flat stream of classified tokens and incrementally
//! builds a concrete syntax tree as a sequence of tree-building events.  No
//! token is ever dropped and no parse ever aborts: unexpected input is
//! recorded as a diagnostic and skipped one token at a time, so that every
//! call into the expression dispatcher makes forward progress.
//!
//! The tree is built speculatively through markers: a parse function opens a
//! node before it knows what the node will be, and later either completes it
//! with a concrete kind or abandons it, re-parenting the children it already
//! produced.  The verified invariants say that marker use is balanced and
//! LIFO, that the event stream stays balanced, and that the leaves of the
//! event stream are exactly the consumed tokens, in order.

pub mod events;
pub mod grammar;
pub mod parser;
pub mod syntax;
pub mod token_set;
