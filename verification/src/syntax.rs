//! The closed enumerations of token kinds and tree-node kinds.

use vstd::prelude::*;

verus! {

/// Kind of one classified token, as handed to the parser by the lexer.
///
/// Tokens are immutable; their position is implicit in the stream.  `Eof`
/// is what the cursor reports past the end of the stream.
#[derive(Clone, Copy, PartialEq, Eq, Structural, Debug)]
pub enum TokenKind {
    TrueKw,
    FalseKw,
    IntNumber,
    FloatNumber,
    ByteLit,
    CharLit,
    StrLit,
    RawStrLit,
    ByteStrLit,
    RawByteStrLit,
    LParen,
    Pipe,
    MoveKw,
    IfKw,
    MatchKw,
    UnsafeKw,
    LCurly,
    ReturnKw,
    Ident,
    SelfKw,
    SuperKw,
    ColonColon,
    RParen,
    RCurly,
    RBrack,
    ElseKw,
    Comma,
    FatArrow,
    ThinArrow,
    LetKw,
    Colon,
    EqSign,
    Semi,
    Underscore,
    FnKw,
    PubKw,
    ErrorTok,
    Eof,
}

/// Kind of one node of the concrete syntax tree.
///
/// `Tombstone` is the placeholder kind of a node that was opened and not yet
/// completed, or that was abandoned in place; a tree builder skips it and
/// attaches its children to the enclosing node.
#[derive(Clone, Copy, PartialEq, Eq, Structural, Debug)]
pub enum NodeKind {
    Tombstone,
    Literal,
    PathExpr,
    StructLit,
    TupleExpr,
    LambdaExpr,
    IfExpr,
    MatchExpr,
    MatchArm,
    BlockExpr,
    LetStmt,
    ExprStmt,
    ReturnExpr,
    ParamList,
    Param,
    PlaceholderPat,
    BindPat,
    LiteralPat,
    TypeRef,
    RetType,
    FnDef,
}

/// What a diagnostic complains about.
#[derive(Clone, Copy, PartialEq, Eq, Structural, Debug)]
pub enum DiagKind {
    /// An `expect` call did not find this token at the cursor.
    ExpectedToken(TokenKind),
    /// No branch of the expression dispatcher matched.
    ExpectedExpression,
    /// Declaration modifiers were consumed but no declaration followed.
    ExpectedItem,
    /// A block was required (after a lambda return type, or an `if` head).
    ExpectedBlock,
    /// No branch of the pattern grammar matched.
    ExpectedPattern,
    /// No branch of the type grammar matched.
    ExpectedType,
}

/// An error record attached to the tree at the point of failure.  It never
/// interrupts tree construction.
#[derive(Clone, Copy, PartialEq, Eq, Structural, Debug)]
pub struct Diagnostic {
    /// What was wrong.
    pub kind: DiagKind,
    /// Index into the token stream where it was noticed.
    pub pos: usize,
}

} // verus!
