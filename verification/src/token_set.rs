//! An immutable set of token kinds with O(1) membership test, used for
//! FIRST-set dispatch without consuming input.

use crate::syntax::TokenKind;
use vstd::prelude::*;

verus! {

/// The bit that stands for one token kind in a `TokenSet` mask.
pub open spec fn tok_bit(k: TokenKind) -> u64 {
    match k {
        TokenKind::TrueKw => 0,
        TokenKind::FalseKw => 1,
        TokenKind::IntNumber => 2,
        TokenKind::FloatNumber => 3,
        TokenKind::ByteLit => 4,
        TokenKind::CharLit => 5,
        TokenKind::StrLit => 6,
        TokenKind::RawStrLit => 7,
        TokenKind::ByteStrLit => 8,
        TokenKind::RawByteStrLit => 9,
        TokenKind::LParen => 10,
        TokenKind::Pipe => 11,
        TokenKind::MoveKw => 12,
        TokenKind::IfKw => 13,
        TokenKind::MatchKw => 14,
        TokenKind::UnsafeKw => 15,
        TokenKind::LCurly => 16,
        TokenKind::ReturnKw => 17,
        TokenKind::Ident => 18,
        TokenKind::SelfKw => 19,
        TokenKind::SuperKw => 20,
        TokenKind::ColonColon => 21,
        TokenKind::RParen => 22,
        TokenKind::RCurly => 23,
        TokenKind::RBrack => 24,
        TokenKind::ElseKw => 25,
        TokenKind::Comma => 26,
        TokenKind::FatArrow => 27,
        TokenKind::ThinArrow => 28,
        TokenKind::LetKw => 29,
        TokenKind::Colon => 30,
        TokenKind::EqSign => 31,
        TokenKind::Semi => 32,
        TokenKind::Underscore => 33,
        TokenKind::FnKw => 34,
        TokenKind::PubKw => 35,
        TokenKind::ErrorTok => 36,
        TokenKind::Eof => 37,
    }
}

/// A value type wrapping a fixed-width bitmask indexed by token kind.
#[derive(Clone, Copy, PartialEq, Eq, Structural, Debug)]
pub struct TokenSet {
    /// The bitmask: bit `tok_bit(k)` stands for kind `k`.
    pub mask: u64,
}

impl TokenSet {
    /// Whether the set holds `k`, as a mathematical statement.
    pub open spec fn has(self, k: TokenKind) -> bool {
        (self.mask >> tok_bit(k)) & 1u64 == 1u64
    }

    /// The set built from the given mask; each bit `tok_bit(k)` stands for
    /// the kind `k`.
    pub fn from_mask(mask: u64) -> (r: TokenSet)
        ensures
            r.mask == mask,
    {
        TokenSet { mask }
    }

    /// FIRST-set membership test: O(1), no side effects.
    pub fn contains(self, k: TokenKind) -> (r: bool)
        ensures
            r == self.has(k),
    {
        let b = bit_of(k);
        (self.mask >> b) & 1u64 == 1u64
    }

    /// The union of two sets.
    pub fn union(self, other: TokenSet) -> (r: TokenSet)
        ensures
            forall|k: TokenKind| #[trigger] r.has(k) == (self.has(k) || other.has(k)),
    {
        let r = TokenSet { mask: self.mask | other.mask };
        proof {
            assert forall|k: TokenKind| r.has(k) == (self.has(k) || other.has(k)) by {
                lemma_bit_or(self.mask, other.mask, tok_bit(k));
            }
        }
        r
    }
}

/// Executable twin of `tok_bit`.
pub fn bit_of(k: TokenKind) -> (b: u64)
    ensures
        b == tok_bit(k),
        b < 64,
{
    match k {
        TokenKind::TrueKw => 0,
        TokenKind::FalseKw => 1,
        TokenKind::IntNumber => 2,
        TokenKind::FloatNumber => 3,
        TokenKind::ByteLit => 4,
        TokenKind::CharLit => 5,
        TokenKind::StrLit => 6,
        TokenKind::RawStrLit => 7,
        TokenKind::ByteStrLit => 8,
        TokenKind::RawByteStrLit => 9,
        TokenKind::LParen => 10,
        TokenKind::Pipe => 11,
        TokenKind::MoveKw => 12,
        TokenKind::IfKw => 13,
        TokenKind::MatchKw => 14,
        TokenKind::UnsafeKw => 15,
        TokenKind::LCurly => 16,
        TokenKind::ReturnKw => 17,
        TokenKind::Ident => 18,
        TokenKind::SelfKw => 19,
        TokenKind::SuperKw => 20,
        TokenKind::ColonColon => 21,
        TokenKind::RParen => 22,
        TokenKind::RCurly => 23,
        TokenKind::RBrack => 24,
        TokenKind::ElseKw => 25,
        TokenKind::Comma => 26,
        TokenKind::FatArrow => 27,
        TokenKind::ThinArrow => 28,
        TokenKind::LetKw => 29,
        TokenKind::Colon => 30,
        TokenKind::EqSign => 31,
        TokenKind::Semi => 32,
        TokenKind::Underscore => 33,
        TokenKind::FnKw => 34,
        TokenKind::PubKw => 35,
        TokenKind::ErrorTok => 36,
        TokenKind::Eof => 37,
    }
}

/// A bit of an or-mask is set exactly when that bit is set on either side.
proof fn lemma_bit_or(a: u64, b: u64, s: u64)
    ensures
        s < 64 ==> ((((a | b) >> s) & 1u64 == 1u64) <==> (((a >> s) & 1u64 == 1u64) || ((b >> s)
            & 1u64 == 1u64))),
{
    assert(s < 64 ==> ((((a | b) >> s) & 1u64 == 1u64) <==> (((a >> s) & 1u64 == 1u64) || ((b >> s)
        & 1u64 == 1u64)))) by (bit_vector);
}

} // verus!
