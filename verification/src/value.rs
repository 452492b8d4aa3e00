use vstd::prelude::*;

verus! {

/// One runtime value: a closed tagged variant over the fixed set of payload
/// kinds the execution core manipulates. References to frames, compiled
/// units and scopes are handles into the interpreter's arenas, so a value
/// stays plain data and every access site is checked by exhaustive matching.
#[derive(Clone, Copy, PartialEq, Eq, Structural, Debug)]
pub enum Value {
    /// The absent / unit value of the interpreted language.
    Nil,
    /// A machine integer of the interpreted language.
    Int(i64),
    /// A boolean of the interpreted language.
    Bool(bool),
    /// Handle of a frame in the interpreter's frame arena.
    FrameRef(usize),
    /// Handle of a compiled unit in the interpreter's unit arena.
    UnitRef(usize),
    /// Handle of a scope in the interpreter's scope arena.
    ScopeRef(usize),
}

} // verus!
