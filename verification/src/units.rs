use vstd::prelude::*;
use crate::value::Value;

verus! {

/// Error kind carried by a propagating user-level error and matched by
/// exception-handler blocks: a variable was absent across the whole chain.
pub const KIND_NAME_RESOLUTION: u64 = 1;

/// Error kind: an instruction ran against an operand of the wrong kind
/// (or an arithmetic result left the representable range).
pub const KIND_TYPE_MISMATCH: u64 = 2;

/// Error kind injected into a suspended frame that is being abandoned, so
/// that its pending cleanup blocks still execute.
pub const KIND_ABANDONED: u64 = 3;

/// Handler blocks declaring this kind catch every user-level error.
pub const KIND_ANY: u64 = 0;

/// One instruction of a compiled unit. Operand-stack effects are described
/// with the execution model; name and constant operands are table indices.
#[derive(Clone, Copy, PartialEq, Eq, Structural, Debug)]
pub enum Instr {
    /// Push the constant at the given index of the unit's constant pool.
    LoadConst(usize),
    /// Resolve the name id through the scope chain and push its value;
    /// raises a name-resolution error when the name is absent everywhere.
    LoadName(usize),
    /// Pop a value and bind it to the name id in the frame's local scope.
    StoreName(usize),
    /// Pop a value and bind it to the name id in the outermost scope of the
    /// chain: the widened (module/global-style) write target.
    StoreModule(usize),
    /// Pop a value and bind it to the name id in the nearest enclosing
    /// scope that already binds it, the frame's own scope excluded: the
    /// widened (nonlocal-style) write target. Raises a name-resolution
    /// error when no enclosing scope binds the name.
    StoreEnclosing(usize),
    /// Pop and discard the top of the operand stack.
    PopTop,
    /// Pop two integers and push their sum.
    Add,
    /// Pop two integers and push their difference (below-top minus top).
    Sub,
    /// Continue at the given instruction offset.
    Jump(usize),
    /// Pop a boolean; jump to the offset when it is false.
    JumpIfFalse(usize),
    /// Enter a loop: push a loop block carrying break and continue offsets.
    SetupLoop(usize, usize),
    /// Enter a guarded region: push a handler block carrying the caught
    /// error kind (`KIND_ANY` catches all) and the handler offset.
    SetupHandler(u64, usize),
    /// Enter a cleanup region: push a finally block carrying the offset of
    /// the cleanup body, which runs on every exit from the region.
    SetupFinally(usize),
    /// Leave the innermost construct normally: pop its block.
    PopBlock,
    /// Unwind to the innermost loop block's break offset.
    Break,
    /// Unwind to the innermost loop block's continue offset.
    Continue,
    /// Raise a user-level error of the given kind at this point.
    Raise(u64),
    /// Close a finally body: resume the unwind that was in flight when the
    /// body was entered, or simply continue when the region exited normally.
    EndFinally,
    /// Invoke the unit at the given handle with the given number of
    /// arguments popped from the operand stack; the callee frame is driven
    /// to completion (or suspension) before this frame's next step.
    Call(usize, usize),
    /// Pop the result value and finish this activation normally; pending
    /// finally blocks still run on the way out.
    Return,
    /// Pop a value, suspend this frame, and hand the value to the consumer
    /// that drove the frame; a later resume continues just after this point.
    Yield,
}

/// One compiled function or module body: immutable once produced and shared
/// by handle across every frame that executes it.
pub struct CompiledUnit {
    /// Constant pool, indexed by `LoadConst`.
    pub consts: Vec<Value>,
    /// Name table: the text of each name id, for diagnostics. The first
    /// `arity` ids are the parameter names.
    pub names: Vec<String>,
    /// Name ids of the unit's free variables: names it reads from captured
    /// enclosing scopes rather than from its own local scope.
    pub free_names: Vec<usize>,
    /// Instruction stream.
    pub instrs: Vec<Instr>,
    /// Number of parameters; a call binds argument `i` to name id `i`.
    pub arity: usize,
}

impl CompiledUnit {
    /// The text of a name id, when the id lies in the name table.
    pub fn name_text(&self, id: usize) -> (r: Option<&String>)
        ensures
            match r {
                Option::Some(s) => id < self.names@.len() && s@ == self.names@[id as int]@,
                Option::None => id >= self.names@.len(),
            },
    {
        if id < self.names.len() {
            Option::Some(&self.names[id])
        } else {
            Option::None
        }
    }
}

} // verus!
