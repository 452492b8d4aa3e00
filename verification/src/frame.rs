use vstd::prelude::*;
use crate::value::Value;
use crate::units::KIND_ANY;

verus! {

/// A propagating user-level error: its kind (matched by handler blocks)
/// and, for name-resolution errors, the missing name id.
#[derive(Clone, Copy, PartialEq, Eq, Structural, Debug)]
pub struct RaisedError {
    /// Error kind, compared against the kind a handler block declares.
    pub kind: u64,
    /// The missing identifier for a name-resolution error; `0` otherwise.
    pub name: usize,
}

/// One entry of a frame's block stack: an active loop, guarded region, or
/// cleanup region. Entries are pushed on entering the construct and popped
/// on normal exit or during an unwind pass.
#[derive(Clone, Copy, PartialEq, Eq, Structural, Debug)]
pub enum Block {
    /// An active loop: where `Break` and `Continue` transfer control.
    Loop { break_to: usize, continue_to: usize },
    /// An active guarded region: the error kind it catches (`KIND_ANY`
    /// catches all user-level errors) and its handler offset.
    Handler { kind: u64, handler_to: usize },
    /// An active cleanup region: the offset of its finally body.
    Finally { cleanup_to: usize },
}

/// The reason an unwind pass is in flight.
#[derive(Clone, Copy, PartialEq, Eq, Structural, Debug)]
pub enum Unwind {
    /// A normal return carrying the result value out of the frame.
    Returning(Value),
    /// A `Break` looking for the innermost loop block.
    Breaking,
    /// A `Continue` looking for the innermost loop block.
    Continuing,
    /// A propagating user-level error looking for a matching handler.
    Raising(RaisedError),
}

/// Where one frame's unwind pass ended.
#[derive(Clone, Copy, PartialEq, Eq, Structural, Debug)]
pub enum UnwindOutcome {
    /// The pass resolved inside this frame: the instruction pointer has
    /// been moved to a loop target, a matching handler, or a finally body.
    Stay,
    /// The block stack is exhausted: the reason leaves the frame (a return
    /// value to the call site, or an error propagating one frame further).
    Leave(Unwind),
    /// `Break` or `Continue` with no enclosing loop block: an internal
    /// consistency fault of the compiled unit.
    Fault,
}

/// Lifecycle state of one activation.
#[derive(Clone, Copy, PartialEq, Eq, Structural, Debug)]
pub enum FrameState {
    /// Constructed, not yet driven.
    Created,
    /// Currently being driven by the dispatch engine.
    Running,
    /// Detached at a yield point; a resume call reattaches it.
    Suspended,
    /// Terminal: finished normally with this result value.
    Returned(Value),
    /// Terminal: finished by an error that left the frame unhandled.
    Raised(RaisedError),
}

/// One activation record: compiled-unit handle, instruction pointer,
/// operand stack, block stack, local scope handle, a non-owning back
/// handle to the caller (diagnostics only), lifecycle state, and the
/// unwind reason suspended while a finally body runs.
pub struct Frame {
    /// Handle of the compiled unit this frame executes.
    pub unit: usize,
    /// Offset of the next instruction to execute.
    pub ip: usize,
    /// Operand stack, exclusively owned by this frame.
    pub stack: Vec<Value>,
    /// Block stack, exclusively owned by this frame.
    pub blocks: Vec<Block>,
    /// Handle of this frame's local scope.
    pub scope: usize,
    /// Back handle to the caller frame, for diagnostics and traces only;
    /// cleared when the frame is unlinked from the chain on completion.
    pub caller: Option<usize>,
    /// Lifecycle state.
    pub state: FrameState,
    /// The unwind reason parked while a finally body runs; `EndFinally`
    /// takes it up again. A fresh control transfer inside the body
    /// overrides and cancels it.
    pub pending: Option<Unwind>,
}

/// Result of one frame-local unwind pass over a block stack.
pub struct UnwindRes {
    /// The block stack after the pass.
    pub blocks: Seq<Block>,
    /// Where execution continues when the pass resolved in this frame.
    pub target: int,
    /// The reason parked for `EndFinally` when the pass entered a finally
    /// body; `None` otherwise.
    pub pending: Option<Unwind>,
    /// How the pass ended.
    pub outcome: UnwindOutcome,
}

/// Whether a block stops an unwind pass with the given reason: a finally
/// block stops every pass; a loop block stops break and continue; a
/// handler block stops an error whose kind it declares.
pub open spec fn block_stops(b: Block, reason: Unwind) -> bool {
    match b {
        Block::Loop { .. } => reason is Breaking || reason is Continuing,
        Block::Handler { kind, .. } => match reason {
            Unwind::Raising(e) => kind == KIND_ANY || kind == e.kind,
            _ => false,
        },
        Block::Finally { .. } => true,
    }
}

/// One frame-local unwind pass: blocks are visited from the top of the
/// stack. A finally block always executes (the reason is parked for
/// `EndFinally`); a handler block executes only for an error of a kind it
/// declares, and the innermost match wins; a loop block resolves break and
/// continue. A reason that exhausts the stack leaves the frame; break or
/// continue with no loop block is a fault.
pub open spec fn unwind_spec(blocks: Seq<Block>, reason: Unwind) -> UnwindRes
    decreases blocks.len(),
{
    if blocks.len() == 0 {
        match reason {
            Unwind::Breaking => UnwindRes {
                blocks,
                target: 0,
                pending: Option::None,
                outcome: UnwindOutcome::Fault,
            },
            Unwind::Continuing => UnwindRes {
                blocks,
                target: 0,
                pending: Option::None,
                outcome: UnwindOutcome::Fault,
            },
            _ => UnwindRes {
                blocks,
                target: 0,
                pending: Option::None,
                outcome: UnwindOutcome::Leave(reason),
            },
        }
    } else {
        let top = blocks.last();
        match top {
            Block::Loop { break_to, continue_to } => match reason {
                Unwind::Breaking => UnwindRes {
                    blocks: blocks.drop_last(),
                    target: break_to as int,
                    pending: Option::None,
                    outcome: UnwindOutcome::Stay,
                },
                Unwind::Continuing => UnwindRes {
                    blocks,
                    target: continue_to as int,
                    pending: Option::None,
                    outcome: UnwindOutcome::Stay,
                },
                _ => unwind_spec(blocks.drop_last(), reason),
            },
            Block::Handler { kind, handler_to } => match reason {
                Unwind::Raising(e) => if kind == KIND_ANY || kind == e.kind {
                    UnwindRes {
                        blocks: blocks.drop_last(),
                        target: handler_to as int,
                        pending: Option::None,
                        outcome: UnwindOutcome::Stay,
                    }
                } else {
                    unwind_spec(blocks.drop_last(), reason)
                },
                _ => unwind_spec(blocks.drop_last(), reason),
            },
            Block::Finally { cleanup_to } => UnwindRes {
                blocks: blocks.drop_last(),
                target: cleanup_to as int,
                pending: Option::Some(reason),
                outcome: UnwindOutcome::Stay,
            },
        }
    }
}

/// An unwind pass leaves a frame only with the very reason that started
/// it: blocks divert or absorb a reason, they never exchange it for
/// another.
pub proof fn lemma_unwind_leave_reason(blocks: Seq<Block>, reason: Unwind)
    ensures
        match unwind_spec(blocks, reason).outcome {
            UnwindOutcome::Leave(why) => why == reason,
            _ => true,
        },
    decreases blocks.len(),
{
    if blocks.len() == 0 {
    } else {
        match blocks.last() {
            Block::Loop { .. } => {
                match reason {
                    Unwind::Breaking => {},
                    Unwind::Continuing => {},
                    _ => {
                        lemma_unwind_leave_reason(blocks.drop_last(), reason);
                    },
                }
            },
            Block::Handler { kind, .. } => {
                match reason {
                    Unwind::Raising(e) => {
                        if !(kind == KIND_ANY || kind == e.kind) {
                            lemma_unwind_leave_reason(blocks.drop_last(), reason);
                        }
                    },
                    _ => {
                        lemma_unwind_leave_reason(blocks.drop_last(), reason);
                    },
                }
            },
            Block::Finally { .. } => {},
        }
    }
}

/// One frame-local unwind pass, exactly as `unwind_spec` describes it. Any
/// previously parked reason is cancelled first: a control transfer out of a
/// finally body overrides the propagation that was in flight. Only the
/// block stack, instruction pointer and parked reason change.
pub fn unwind_frame(f: &mut Frame, reason: Unwind) -> (r: UnwindOutcome)
    ensures
        final(f).blocks@ == unwind_spec(old(f).blocks@, reason).blocks,
        final(f).pending == unwind_spec(old(f).blocks@, reason).pending,
        r == unwind_spec(old(f).blocks@, reason).outcome,
        r is Stay ==> final(f).ip == unwind_spec(old(f).blocks@, reason).target,
        !(r is Stay) ==> final(f).ip == old(f).ip,
        final(f).stack == old(f).stack,
        final(f).unit == old(f).unit,
        final(f).scope == old(f).scope,
        final(f).caller == old(f).caller,
        final(f).state == old(f).state,
{
    let ghost b0 = f.blocks@;
    f.pending = Option::None;
    loop
        invariant
            b0 == old(f).blocks@,
            unwind_spec(b0, reason) == unwind_spec(f.blocks@, reason),
            f.pending == Option::<Unwind>::None,
            f.ip == old(f).ip,
            f.stack == old(f).stack,
            f.unit == old(f).unit,
            f.scope == old(f).scope,
            f.caller == old(f).caller,
            f.state == old(f).state,
        decreases f.blocks@.len(),
    {
        if f.blocks.len() == 0 {
            match reason {
                Unwind::Breaking => {
                    return UnwindOutcome::Fault;
                },
                Unwind::Continuing => {
                    return UnwindOutcome::Fault;
                },
                _ => {
                    return UnwindOutcome::Leave(reason);
                },
            }
        }
        let top = f.blocks[f.blocks.len() - 1];
        proof {
            assert(top == f.blocks@.last());
        }
        match top {
            Block::Loop { break_to, continue_to } => {
                match reason {
                    Unwind::Breaking => {
                        f.blocks.pop();
                        f.ip = break_to;
                        return UnwindOutcome::Stay;
                    },
                    Unwind::Continuing => {
                        f.ip = continue_to;
                        return UnwindOutcome::Stay;
                    },
                    _ => {
                        f.blocks.pop();
                    },
                }
            },
            Block::Handler { kind, handler_to } => {
                match reason {
                    Unwind::Raising(e) => {
                        if kind == KIND_ANY || kind == e.kind {
                            f.blocks.pop();
                            f.ip = handler_to;
                            return UnwindOutcome::Stay;
                        } else {
                            f.blocks.pop();
                        }
                    },
                    _ => {
                        f.blocks.pop();
                    },
                }
            },
            Block::Finally { cleanup_to } => {
                f.blocks.pop();
                f.pending = Option::Some(reason);
                f.ip = cleanup_to;
                return UnwindOutcome::Stay;
            },
        }
    }
}

} // verus!
