use crate::loc::Range;
use vstd::prelude::*;

verus! {

/// Ways in which building the model can fail; the caller decides what to do
/// with each.
#[derive(Clone, Copy, PartialEq, Eq, Debug, Structural)]
pub enum Error {
    SyntaxError,
    UnknownError,
    LocalDeclareNotFound,
    LocalIsNotUserVariable,
}

/// Liveness summary of one local variable, declared by the user or made by
/// the compiler.
#[derive(Clone, Copy, PartialEq, Eq, Debug, Structural)]
pub enum MirVariable {
    User { index: usize, live: Range, dead: Range },
    Other { index: usize, live: Range, dead: Range },
}

impl MirVariable {
    /// The local index that the record is about, whatever its kind.
    pub open spec fn local_index(self) -> usize {
        match self {
            MirVariable::User { index, .. } => index,
            MirVariable::Other { index, .. } => index,
        }
    }
}

/// Right-hand side of an assignment.
#[derive(Clone, PartialEq, Eq, Debug)]
pub enum MirRval {
    Move { target_local_index: usize, range: Range },
    Borrow { target_local_index: usize, range: Range, mutable: bool, outlive: Option<Range> },
}

/// One statement of a basic block.
#[derive(Clone, PartialEq, Eq, Debug)]
pub enum MirStatement {
    StorageLive { target_local_index: usize, range: Range },
    StorageDead { target_local_index: usize, range: Range },
    Assign { target_local_index: usize, range: Range, rval: Option<MirRval> },
}

/// The instruction that ends a basic block.
#[derive(Clone, PartialEq, Eq, Debug)]
pub enum MirTerminator {
    Drop { local_index: usize, range: Range },
    Call { destination_local_index: usize, fn_span: Range },
    Other,
}

/// A straight-line run of statements, in control-flow order, and its
/// terminator.
#[derive(Clone, PartialEq, Eq, Debug)]
pub struct MirBasicBlock {
    pub statements: Vec<MirStatement>,
    pub terminator: Option<MirTerminator>,
}

/// Declaration of one local, with the ranges over which it lives, is dropped
/// and must stay alive.
#[derive(Clone, PartialEq, Eq, Debug)]
pub enum MirDecl {
    User {
        local_index: usize,
        name: String,
        span: Range,
        ty: String,
        lives: Vec<Range>,
        drop: bool,
        drop_range: Vec<Range>,
        must_live_at: Vec<Range>,
    },
    Other {
        local_index: usize,
        ty: String,
        lives: Vec<Range>,
        drop: bool,
        drop_range: Vec<Range>,
        must_live_at: Vec<Range>,
    },
}

/// All facts about one function: its basic blocks and its declarations.
#[derive(Clone, PartialEq, Eq, Debug)]
pub struct Function {
    pub basic_blocks: Vec<MirBasicBlock>,
    pub decls: Vec<MirDecl>,
}

/// A top-level unit of analysis.
#[derive(Clone, PartialEq, Eq, Debug)]
pub enum Item {
    Function { span: Range, mir: Function },
}

} // verus!
