//! The expression- and statement-level grammar, split as the grammar itself
//! is: the atom-expression dispatcher and its sub-grammars, and the sibling
//! grammars (paths, patterns, types, items, parameter lists) it calls into.

pub mod atom;
pub mod expressions;
pub mod items;
pub mod params;
pub mod paths;
pub mod patterns;
pub mod types;

use vstd::prelude::*;

verus! {

/// Grammar-disambiguation context, copied by value into each recursive
/// parse call and optionally overridden for a specific sub-expression;
/// never shared or mutated in place.
#[derive(Clone, Copy, PartialEq, Eq, Structural, Debug)]
pub struct Restrictions {
    /// Structure-literal expressions are forbidden here.  Active exactly
    /// while parsing the condition of a conditional or the subject of a
    /// match, where a bare `{` must begin the body block.
    pub forbid_structs: bool,
}

impl Restrictions {
    /// The default context: everything allowed.
    pub fn none() -> (r: Restrictions)
        ensures
            !r.forbid_structs,
    {
        Restrictions { forbid_structs: false }
    }

    /// The context for a conditional's condition or a match's subject:
    /// structure literals forbidden.
    pub fn no_structs() -> (r: Restrictions)
        ensures
            r.forbid_structs,
    {
        Restrictions { forbid_structs: true }
    }
}

} // verus!
