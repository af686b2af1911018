//! Data model for ownership and lifetime facts extracted from a program's
//! mid-level intermediate representation, with the two algorithms it needs:
//! mapping byte positions to character locations, and folding per-file
//! analysis results into one workspace.

mod loc;
mod mir;
mod variables;
mod workspace;

pub use loc::{Loc, Range};
pub use mir::{
    Error, Function, Item, MirBasicBlock, MirDecl, MirRval, MirStatement, MirTerminator, MirVariable,
};
pub use variables::MirVariables;
pub use workspace::{File, Workspace};
