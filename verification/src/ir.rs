//! The part of the intermediate representation in which helper procedures
//! and their call sites are written. Nodes live in an arena and refer to one
//! another by shared reference.
use crate::layout::Layout;
use crate::symbol::Symbol;
use vstd::prelude::*;

verus! {

#[derive(Clone, Copy, Debug, PartialEq, Eq, Structural)]
pub enum Literal {
    Int(i128),
}

/// An operation that the backend implements itself.
#[derive(Clone, Copy, Debug, PartialEq, Eq, Hash, Structural)]
pub enum LowLevel {
    /// Whether the first number is at least the second.
    NumGte,
    /// From a pointer to a payload, the pointer to its reference count.
    RefCountGetPtr,
    /// Atomically adds an amount to the reference count behind a pointer.
    RefCountInc,
    /// Atomically takes one from the reference count behind a pointer, and
    /// frees the allocation when none is left.
    RefCountDec,
}

#[derive(Clone, Copy, Debug, PartialEq)]
pub enum CallType<'a> {
    ByName { name: Symbol, ret_layout: Layout<'a>, arg_layouts: &'a [Layout<'a>] },
    LowLevel { op: LowLevel },
}

#[derive(Clone, Copy, Debug, PartialEq)]
pub struct Call<'a> {
    pub call_type: CallType<'a>,
    pub arguments: &'a [Symbol],
}

#[derive(Clone, Copy, Debug, PartialEq)]
pub enum Expr<'a> {
    Literal(Literal),
    Call(Call<'a>),
    Struct(&'a [Symbol]),
    StructAtIndex { index: u64, field_layouts: &'a [Layout<'a>], structure: Symbol },
}

#[derive(Clone, Copy, Debug, PartialEq)]
pub enum Stmt<'a> {
    /// Binds a name to the value of an expression of a layout, for the
    /// statement that follows.
    Let(Symbol, Expr<'a>, Layout<'a>, &'a Stmt<'a>),
    /// Goes on with the branch whose number the condition holds, or with
    /// the default branch.
    Switch {
        cond_symbol: Symbol,
        cond_layout: Layout<'a>,
        branches: &'a [(u64, Stmt<'a>)],
        default_branch: &'a Stmt<'a>,
        ret_layout: Layout<'a>,
    },
    Ret(Symbol),
    /// A statement of the caller, by the number that the caller gave it.
    /// The helpers are put in front of such statements and never look
    /// into them.
    Foreign(u64),
}

/// A request to change the reference count of a value.
#[derive(Clone, Copy, Debug, PartialEq, Eq, Structural)]
pub enum ModifyRc {
    Inc(Symbol, u64),
    Dec(Symbol),
    DecRef(Symbol),
}

/// The layouts of a procedure's arguments and of its result.
#[derive(Clone, Copy, Debug, PartialEq)]
pub struct ProcLayout<'a> {
    pub arguments: &'a [Layout<'a>],
    pub result: Layout<'a>,
}

#[derive(Clone, Copy, Debug, PartialEq)]
pub struct Proc<'a> {
    pub name: Symbol,
    pub args: &'a [(Layout<'a>, Symbol)],
    pub body: Stmt<'a>,
    pub closure_data_layout: Option<Layout<'a>>,
    pub ret_layout: Layout<'a>,
    pub is_self_recursive: bool,
    pub must_own_arguments: bool,
    pub is_host_exposed: bool,
}

} // verus!
