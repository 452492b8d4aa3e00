use vstd::prelude::*;
use crate::value::Value;
use crate::scope::{Scope, find_entry, store_entry, lookup_chain};
use crate::units::{CompiledUnit, Instr, KIND_NAME_RESOLUTION, KIND_TYPE_MISMATCH};
use crate::frame::{Block, Unwind, UnwindOutcome, RaisedError, unwind_spec};

verus! {

/// Whether an instruction is plain: it touches only the operand stack and
/// the local scope, moves the instruction pointer one step forward, never
/// transfers control, and never enters or leaves a block.
pub open spec fn plain_instr(i: Instr) -> bool {
    match i {
        Instr::LoadConst(_) => true,
        Instr::LoadName(_) => true,
        Instr::StoreName(_) => true,
        Instr::PopTop => true,
        Instr::Add => true,
        Instr::Sub => true,
        _ => false,
    }
}

/// Whether an instruction stays within one frame and one local scope: every
/// instruction except a call (which drives a child frame) and a widened
/// store (which writes a shared scope further up the chain).
pub open spec fn modeled_instr(i: Instr) -> bool {
    match i {
        Instr::Call(_, _) => false,
        Instr::StoreModule(_) => false,
        Instr::StoreEnclosing(_) => false,
        _ => true,
    }
}

/// A modeled unit: the execution model below predicts its every drive,
/// step for step — loops, branches, handler and cleanup blocks, raising,
/// suspension and resumption included.
pub open spec fn modeled_unit(u: CompiledUnit) -> bool {
    forall|i: int| 0 <= i < u.instrs@.len() ==> modeled_instr(#[trigger] u.instrs@[i])
}

/// A straight unit: plain instructions, yields and returns only — no
/// control transfer at all, so instructions execute one by one in program
/// order, suspending at each yield, until a return finishes the run.
pub open spec fn straight_unit(u: CompiledUnit) -> bool {
    forall|i: int|
        0 <= i < u.instrs@.len() ==> (plain_instr(#[trigger] u.instrs@[i]) || u.instrs@[i]
            == Instr::Yield || u.instrs@[i] == Instr::Return)
}

/// A straight unit with no yield instruction: it runs to a return in one
/// drive, executing every instruction up to the return exactly once.
pub open spec fn straight_plain_unit(u: CompiledUnit) -> bool {
    straight_unit(u) && forall|i: int|
        0 <= i < u.instrs@.len() ==> #[trigger] u.instrs@[i] != Instr::Yield
}

/// Whether the model is executing instructions or carrying an unwind
/// reason through the block stack.
pub enum RunMode {
    Run,
    Unwind(Unwind),
}

/// The execution state of one modeled frame: operand stack, local
/// bindings, block stack, the reason parked while a finally body runs,
/// the offset of the next instruction, and the dispatch mode.
pub struct RunState {
    pub stack: Seq<Value>,
    pub locals: Seq<(usize, Value)>,
    pub blocks: Seq<Block>,
    pub pending: Option<Unwind>,
    pub ip: int,
    pub mode: RunMode,
}

/// How a modeled run ends.
pub enum RunRes {
    /// A return finished the frame: the result value and the frame's final
    /// local bindings.
    Done(Value, Seq<(usize, Value)>),
    /// A yield suspended the frame: the yielded value and the exact state —
    /// stack, bindings, blocks, parked reason, position — a resume
    /// continues from.
    Yielding(Value, RunState),
    /// An error left the frame with no handler matching it: the error and
    /// the frame's final local bindings.
    Raised(RaisedError, Seq<(usize, Value)>),
    /// An internal-consistency fault: an index or offset out of range, an
    /// operand-stack underflow, or a break or continue with no loop block.
    Faulted,
    /// The step budget ran out before the frame finished.
    OutOfFuel,
}

/// Resolution of `name` during a modeled run: the run's own local bindings
/// first, then the captured chain starting at `parent`.
pub open spec fn run_lookup(
    scopes: Seq<Scope>,
    parent: Option<usize>,
    locals: Seq<(usize, Value)>,
    name: usize,
) -> Option<Value> {
    match find_entry(locals, name) {
        Option::Some(v) => Option::Some(v),
        Option::None => match parent {
            Option::Some(p) => lookup_chain(scopes, p as int, name),
            Option::None => Option::<Value>::None,
        },
    }
}

/// The modeled execution of unit `u` from state `st`, reading captured
/// names through `scopes` from `parent`, for at most `fuel` steps. One
/// step either executes the instruction at the current offset or performs
/// one unwind pass over the block stack, exactly as the dispatch engine
/// does; the frame's own bindings live in `locals`, so the chain in
/// `scopes` stays as given for the whole run.
pub open spec fn frame_run(
    u: CompiledUnit,
    scopes: Seq<Scope>,
    parent: Option<usize>,
    st: RunState,
    fuel: int,
) -> RunRes
    decreases fuel,
{
    if fuel <= 0 {
        RunRes::OutOfFuel
    } else {
        match st.mode {
            RunMode::Unwind(reason) => {
                let res = unwind_spec(st.blocks, reason);
                match res.outcome {
                    UnwindOutcome::Fault => RunRes::Faulted,
                    UnwindOutcome::Leave(why) => match why {
                        Unwind::Returning(v) => RunRes::Done(v, st.locals),
                        Unwind::Raising(e) => RunRes::Raised(e, st.locals),
                        _ => RunRes::Faulted,
                    },
                    UnwindOutcome::Stay => frame_run(
                        u,
                        scopes,
                        parent,
                        RunState {
                            stack: st.stack,
                            locals: st.locals,
                            blocks: res.blocks,
                            pending: res.pending,
                            ip: res.target,
                            mode: RunMode::Run,
                        },
                        fuel - 1,
                    ),
                }
            },
            RunMode::Run => {
                if st.ip < 0 || st.ip >= u.instrs@.len() {
                    RunRes::Faulted
                } else {
                    match u.instrs@[st.ip] {
                        Instr::LoadConst(k) => if (k as int) < u.consts@.len() {
                            frame_run(
                                u,
                                scopes,
                                parent,
                                RunState {
                                    stack: st.stack.push(u.consts@[k as int]),
                                    ip: st.ip + 1,
                                    ..st
                                },
                                fuel - 1,
                            )
                        } else {
                            RunRes::Faulted
                        },
                        Instr::LoadName(n) => match run_lookup(scopes, parent, st.locals, n) {
                            Option::Some(v) => frame_run(
                                u,
                                scopes,
                                parent,
                                RunState { stack: st.stack.push(v), ip: st.ip + 1, ..st },
                                fuel - 1,
                            ),
                            Option::None => frame_run(
                                u,
                                scopes,
                                parent,
                                RunState {
                                    mode: RunMode::Unwind(
                                        Unwind::Raising(
                                            RaisedError { kind: KIND_NAME_RESOLUTION, name: n },
                                        ),
                                    ),
                                    ..st
                                },
                                fuel - 1,
                            ),
                        },
                        Instr::StoreName(n) => if st.stack.len() > 0 {
                            frame_run(
                                u,
                                scopes,
                                parent,
                                RunState {
                                    stack: st.stack.drop_last(),
                                    locals: store_entry(st.locals, n, st.stack.last()),
                                    ip: st.ip + 1,
                                    ..st
                                },
                                fuel - 1,
                            )
                        } else {
                            RunRes::Faulted
                        },
                        Instr::PopTop => if st.stack.len() > 0 {
                            frame_run(
                                u,
                                scopes,
                                parent,
                                RunState { stack: st.stack.drop_last(), ip: st.ip + 1, ..st },
                                fuel - 1,
                            )
                        } else {
                            RunRes::Faulted
                        },
                        Instr::Add => if st.stack.len() >= 2 {
                            match (st.stack[st.stack.len() - 2], st.stack.last()) {
                                (Value::Int(a), Value::Int(b)) => if i64::MIN <= a + b
                                    <= i64::MAX {
                                    frame_run(
                                        u,
                                        scopes,
                                        parent,
                                        RunState {
                                            stack: st.stack.drop_last().drop_last().push(
                                                Value::Int((a + b) as i64),
                                            ),
                                            ip: st.ip + 1,
                                            ..st
                                        },
                                        fuel - 1,
                                    )
                                } else {
                                    frame_run(
                                        u,
                                        scopes,
                                        parent,
                                        RunState {
                                            mode: RunMode::Unwind(
                                                Unwind::Raising(
                                                    RaisedError {
                                                        kind: KIND_TYPE_MISMATCH,
                                                        name: 0,
                                                    },
                                                ),
                                            ),
                                            ..st
                                        },
                                        fuel - 1,
                                    )
                                },
                                _ => frame_run(
                                    u,
                                    scopes,
                                    parent,
                                    RunState {
                                        mode: RunMode::Unwind(
                                            Unwind::Raising(
                                                RaisedError { kind: KIND_TYPE_MISMATCH, name: 0 },
                                            ),
                                        ),
                                        ..st
                                    },
                                    fuel - 1,
                                ),
                            }
                        } else {
                            RunRes::Faulted
                        },
                        Instr::Sub => if st.stack.len() >= 2 {
                            match (st.stack[st.stack.len() - 2], st.stack.last()) {
                                (Value::Int(a), Value::Int(b)) => if i64::MIN <= a - b
                                    <= i64::MAX {
                                    frame_run(
                                        u,
                                        scopes,
                                        parent,
                                        RunState {
                                            stack: st.stack.drop_last().drop_last().push(
                                                Value::Int((a - b) as i64),
                                            ),
                                            ip: st.ip + 1,
                                            ..st
                                        },
                                        fuel - 1,
                                    )
                                } else {
                                    frame_run(
                                        u,
                                        scopes,
                                        parent,
                                        RunState {
                                            mode: RunMode::Unwind(
                                                Unwind::Raising(
                                                    RaisedError {
                                                        kind: KIND_TYPE_MISMATCH,
                                                        name: 0,
                                                    },
                                                ),
                                            ),
                                            ..st
                                        },
                                        fuel - 1,
                                    )
                                },
                                _ => frame_run(
                                    u,
                                    scopes,
                                    parent,
                                    RunState {
                                        mode: RunMode::Unwind(
                                            Unwind::Raising(
                                                RaisedError { kind: KIND_TYPE_MISMATCH, name: 0 },
                                            ),
                                        ),
                                        ..st
                                    },
                                    fuel - 1,
                                ),
                            }
                        } else {
                            RunRes::Faulted
                        },
                        Instr::Jump(t) => frame_run(
                            u,
                            scopes,
                            parent,
                            RunState { ip: t as int, ..st },
                            fuel - 1,
                        ),
                        Instr::JumpIfFalse(t) => if st.stack.len() > 0 {
                            match st.stack.last() {
                                Value::Bool(b) => frame_run(
                                    u,
                                    scopes,
                                    parent,
                                    RunState {
                                        stack: st.stack.drop_last(),
                                        ip: if b {
                                            st.ip + 1
                                        } else {
                                            t as int
                                        },
                                        ..st
                                    },
                                    fuel - 1,
                                ),
                                _ => frame_run(
                                    u,
                                    scopes,
                                    parent,
                                    RunState {
                                        stack: st.stack.drop_last(),
                                        mode: RunMode::Unwind(
                                            Unwind::Raising(
                                                RaisedError { kind: KIND_TYPE_MISMATCH, name: 0 },
                                            ),
                                        ),
                                        ..st
                                    },
                                    fuel - 1,
                                ),
                            }
                        } else {
                            RunRes::Faulted
                        },
                        Instr::SetupLoop(b_to, c_to) => frame_run(
                            u,
                            scopes,
                            parent,
                            RunState {
                                blocks: st.blocks.push(
                                    Block::Loop { break_to: b_to, continue_to: c_to },
                                ),
                                ip: st.ip + 1,
                                ..st
                            },
                            fuel - 1,
                        ),
                        Instr::SetupHandler(kind, h_to) => frame_run(
                            u,
                            scopes,
                            parent,
                            RunState {
                                blocks: st.blocks.push(Block::Handler { kind, handler_to: h_to }),
                                ip: st.ip + 1,
                                ..st
                            },
                            fuel - 1,
                        ),
                        Instr::SetupFinally(c_to) => frame_run(
                            u,
                            scopes,
                            parent,
                            RunState {
                                blocks: st.blocks.push(Block::Finally { cleanup_to: c_to }),
                                ip: st.ip + 1,
                                ..st
                            },
                            fuel - 1,
                        ),
                        Instr::PopBlock => if st.blocks.len() > 0 {
                            frame_run(
                                u,
                                scopes,
                                parent,
                                RunState {
                                    blocks: st.blocks.drop_last(),
                                    ip: st.ip + 1,
                                    ..st
                                },
                                fuel - 1,
                            )
                        } else {
                            RunRes::Faulted
                        },
                        Instr::Break => frame_run(
                            u,
                            scopes,
                            parent,
                            RunState { mode: RunMode::Unwind(Unwind::Breaking), ..st },
                            fuel - 1,
                        ),
                        Instr::Continue => frame_run(
                            u,
                            scopes,
                            parent,
                            RunState { mode: RunMode::Unwind(Unwind::Continuing), ..st },
                            fuel - 1,
                        ),
                        Instr::Raise(k) => frame_run(
                            u,
                            scopes,
                            parent,
                            RunState {
                                mode: RunMode::Unwind(
                                    Unwind::Raising(RaisedError { kind: k, name: 0 }),
                                ),
                                ..st
                            },
                            fuel - 1,
                        ),
                        Instr::EndFinally => match st.pending {
                            Option::None => frame_run(
                                u,
                                scopes,
                                parent,
                                RunState { ip: st.ip + 1, ..st },
                                fuel - 1,
                            ),
                            Option::Some(w) => frame_run(
                                u,
                                scopes,
                                parent,
                                RunState {
                                    pending: Option::None,
                                    mode: RunMode::Unwind(w),
                                    ..st
                                },
                                fuel - 1,
                            ),
                        },
                        Instr::Yield => if st.stack.len() > 0 {
                            RunRes::Yielding(
                                st.stack.last(),
                                RunState { stack: st.stack.drop_last(), ip: st.ip + 1, ..st },
                            )
                        } else {
                            RunRes::Faulted
                        },
                        Instr::Return => if st.stack.len() > 0 {
                            frame_run(
                                u,
                                scopes,
                                parent,
                                RunState {
                                    stack: st.stack.drop_last(),
                                    mode: RunMode::Unwind(
                                        Unwind::Returning(st.stack.last()),
                                    ),
                                    ..st
                                },
                                fuel - 1,
                            )
                        } else {
                            RunRes::Faulted
                        },
                        _ => RunRes::Faulted,
                    }
                }
            },
        }
    }
}

/// The local bindings a call installs: argument `i` bound to name id `i`.
pub open spec fn bind_args(args: Seq<Value>) -> Seq<(usize, Value)> {
    Seq::new(args.len(), |i: int| (i as usize, args[i]))
}

/// Two scope arenas resolve every name identically from the chain at
/// `parent`: a modeled run cannot tell them apart.
pub open spec fn chain_agrees(s1: Seq<Scope>, s2: Seq<Scope>, parent: Option<usize>) -> bool {
    match parent {
        Option::Some(p) => forall|n: usize|
            lookup_chain(s1, p as int, n) == lookup_chain(s2, p as int, n),
        Option::None => true,
    }
}

/// An unwind pass over an empty block stack cannot suspend: the reason
/// leaves the frame (or the fuel runs out) at once.
proof fn lemma_unwind_empty_never_yields(
    u: CompiledUnit,
    scopes: Seq<Scope>,
    parent: Option<usize>,
    st: RunState,
    fuel: int,
)
    requires
        st.blocks.len() == 0,
        st.mode is Unwind,
    ensures
        !(frame_run(u, scopes, parent, st, fuel) is Yielding),
{
    if fuel <= 0 {
        assert(frame_run(u, scopes, parent, st, fuel) == RunRes::OutOfFuel);
    } else {
        match st.mode {
            RunMode::Unwind(reason) => {
                let res = unwind_spec(st.blocks, reason);
                assert(!(res.outcome is Stay));
            },
            RunMode::Run => {},
        }
    }
}

/// Yielded values appear in exactly the order and count dictated by a
/// straight unit's yield instructions: such a run suspends precisely at the
/// textually next yield instruction after its current position — no yield
/// is skipped on the way there, and the resumed position sits just past
/// the one that fired, so the same yield never fires twice.
pub proof fn lemma_suspension_at_next_yield(
    u: CompiledUnit,
    scopes: Seq<Scope>,
    parent: Option<usize>,
    st: RunState,
    fuel: int,
    v: Value,
    st1: RunState,
)
    requires
        straight_unit(u),
        st.mode is Run,
        st.blocks.len() == 0,
        frame_run(u, scopes, parent, st, fuel) == RunRes::Yielding(v, st1),
    ensures
        st.ip < st1.ip <= u.instrs@.len(),
        u.instrs@[st1.ip - 1] == Instr::Yield,
        forall|j: int| st.ip <= j < st1.ip - 1 ==> #[trigger] u.instrs@[j] != Instr::Yield,
    decreases fuel,
{
    if fuel <= 0 {
        assert(frame_run(u, scopes, parent, st, fuel) == RunRes::OutOfFuel);
    } else if st.ip < 0 || st.ip >= u.instrs@.len() {
        assert(frame_run(u, scopes, parent, st, fuel) == RunRes::Faulted);
    } else {
        assert(plain_instr(u.instrs@[st.ip]) || u.instrs@[st.ip] == Instr::Yield
            || u.instrs@[st.ip] == Instr::Return);
        match u.instrs@[st.ip] {
            Instr::LoadConst(k) => if (k as int) < u.consts@.len() {
                lemma_suspension_at_next_yield(
                    u,
                    scopes,
                    parent,
                    RunState { stack: st.stack.push(u.consts@[k as int]), ip: st.ip + 1, ..st },
                    fuel - 1,
                    v,
                    st1,
                );
            },
            Instr::LoadName(n) => {
                match run_lookup(scopes, parent, st.locals, n) {
                    Option::Some(w) => {
                        lemma_suspension_at_next_yield(
                            u,
                            scopes,
                            parent,
                            RunState { stack: st.stack.push(w), ip: st.ip + 1, ..st },
                            fuel - 1,
                            v,
                            st1,
                        );
                    },
                    Option::None => {
                        lemma_unwind_empty_never_yields(
                            u,
                            scopes,
                            parent,
                            RunState {
                                mode: RunMode::Unwind(
                                    Unwind::Raising(
                                        RaisedError { kind: KIND_NAME_RESOLUTION, name: n },
                                    ),
                                ),
                                ..st
                            },
                            fuel - 1,
                        );
                    },
                }
            },
            Instr::StoreName(n) => if st.stack.len() > 0 {
                lemma_suspension_at_next_yield(
                    u,
                    scopes,
                    parent,
                    RunState {
                        stack: st.stack.drop_last(),
                        locals: store_entry(st.locals, n, st.stack.last()),
                        ip: st.ip + 1,
                        ..st
                    },
                    fuel - 1,
                    v,
                    st1,
                );
            },
            Instr::PopTop => if st.stack.len() > 0 {
                lemma_suspension_at_next_yield(
                    u,
                    scopes,
                    parent,
                    RunState { stack: st.stack.drop_last(), ip: st.ip + 1, ..st },
                    fuel - 1,
                    v,
                    st1,
                );
            },
            Instr::Add => if st.stack.len() >= 2 {
                match (st.stack[st.stack.len() - 2], st.stack.last()) {
                    (Value::Int(a), Value::Int(b)) => if i64::MIN <= a + b <= i64::MAX {
                        lemma_suspension_at_next_yield(
                            u,
                            scopes,
                            parent,
                            RunState {
                                stack: st.stack.drop_last().drop_last().push(
                                    Value::Int((a + b) as i64),
                                ),
                                ip: st.ip + 1,
                                ..st
                            },
                            fuel - 1,
                            v,
                            st1,
                        );
                    } else {
                        lemma_unwind_empty_never_yields(
                            u,
                            scopes,
                            parent,
                            RunState {
                                mode: RunMode::Unwind(
                                    Unwind::Raising(
                                        RaisedError { kind: KIND_TYPE_MISMATCH, name: 0 },
                                    ),
                                ),
                                ..st
                            },
                            fuel - 1,
                        );
                    },
                    _ => {
                        lemma_unwind_empty_never_yields(
                            u,
                            scopes,
                            parent,
                            RunState {
                                mode: RunMode::Unwind(
                                    Unwind::Raising(
                                        RaisedError { kind: KIND_TYPE_MISMATCH, name: 0 },
                                    ),
                                ),
                                ..st
                            },
                            fuel - 1,
                        );
                    },
                }
            },
            Instr::Sub => if st.stack.len() >= 2 {
                match (st.stack[st.stack.len() - 2], st.stack.last()) {
                    (Value::Int(a), Value::Int(b)) => if i64::MIN <= a - b <= i64::MAX {
                        lemma_suspension_at_next_yield(
                            u,
                            scopes,
                            parent,
                            RunState {
                                stack: st.stack.drop_last().drop_last().push(
                                    Value::Int((a - b) as i64),
                                ),
                                ip: st.ip + 1,
                                ..st
                            },
                            fuel - 1,
                            v,
                            st1,
                        );
                    } else {
                        lemma_unwind_empty_never_yields(
                            u,
                            scopes,
                            parent,
                            RunState {
                                mode: RunMode::Unwind(
                                    Unwind::Raising(
                                        RaisedError { kind: KIND_TYPE_MISMATCH, name: 0 },
                                    ),
                                ),
                                ..st
                            },
                            fuel - 1,
                        );
                    },
                    _ => {
                        lemma_unwind_empty_never_yields(
                            u,
                            scopes,
                            parent,
                            RunState {
                                mode: RunMode::Unwind(
                                    Unwind::Raising(
                                        RaisedError { kind: KIND_TYPE_MISMATCH, name: 0 },
                                    ),
                                ),
                                ..st
                            },
                            fuel - 1,
                        );
                    },
                }
            },
            Instr::Yield => {
                if st.stack.len() > 0 {
                    assert(st1 == RunState { stack: st.stack.drop_last(), ip: st.ip + 1, ..st });
                }
            },
            Instr::Return => if st.stack.len() > 0 {
                lemma_unwind_empty_never_yields(
                    u,
                    scopes,
                    parent,
                    RunState {
                        stack: st.stack.drop_last(),
                        mode: RunMode::Unwind(Unwind::Returning(st.stack.last())),
                        ..st
                    },
                    fuel - 1,
                );
            },
            _ => {},
        }
    }
}

/// A straight unit with no yield instruction never suspends: its run
/// finishes with a return value, raises out, faults, or runs out of fuel.
pub proof fn lemma_straight_plain_never_yields(
    u: CompiledUnit,
    scopes: Seq<Scope>,
    parent: Option<usize>,
    st: RunState,
    fuel: int,
)
    requires
        straight_plain_unit(u),
        st.mode is Run,
        st.blocks.len() == 0,
    ensures
        !(frame_run(u, scopes, parent, st, fuel) is Yielding),
{
    match frame_run(u, scopes, parent, st, fuel) {
        RunRes::Yielding(v, st1) => {
            lemma_suspension_at_next_yield(u, scopes, parent, st, fuel, v, st1);
            assert(u.instrs@[st1.ip - 1] != Instr::Yield);
        },
        _ => {},
    }
}

/// A modeled run reads scopes only through the chain at `parent`: two
/// arenas whose chains agree give the same run.
pub proof fn lemma_frame_run_agree(
    u: CompiledUnit,
    s1: Seq<Scope>,
    s2: Seq<Scope>,
    parent: Option<usize>,
    st: RunState,
    fuel: int,
)
    requires
        chain_agrees(s1, s2, parent),
    ensures
        frame_run(u, s1, parent, st, fuel) == frame_run(u, s2, parent, st, fuel),
    decreases fuel, 1int,
{
    if fuel <= 0 {
    } else {
        match st.mode {
            RunMode::Unwind(reason) => {
                let res = unwind_spec(st.blocks, reason);
                match res.outcome {
                    UnwindOutcome::Stay => {
                        lemma_frame_run_agree(
                            u,
                            s1,
                            s2,
                            parent,
                            RunState {
                                stack: st.stack,
                                locals: st.locals,
                                blocks: res.blocks,
                                pending: res.pending,
                                ip: res.target,
                                mode: RunMode::Run,
                            },
                            fuel - 1,
                        );
                    },
                    _ => {},
                }
            },
            RunMode::Run => {
                if st.ip < 0 || st.ip >= u.instrs@.len() {
                } else {
                    match u.instrs@[st.ip] {
                        Instr::LoadName(n) => {
                            assert(run_lookup(s1, parent, st.locals, n) == run_lookup(
                                s2,
                                parent,
                                st.locals,
                                n,
                            ));
                            match run_lookup(s1, parent, st.locals, n) {
                                Option::Some(v) => {
                                    lemma_frame_run_agree(
                                        u,
                                        s1,
                                        s2,
                                        parent,
                                        RunState { stack: st.stack.push(v), ip: st.ip + 1, ..st },
                                        fuel - 1,
                                    );
                                },
                                Option::None => {
                                    lemma_frame_run_agree(
                                        u,
                                        s1,
                                        s2,
                                        parent,
                                        RunState {
                                            mode: RunMode::Unwind(
                                                Unwind::Raising(
                                                    RaisedError {
                                                        kind: KIND_NAME_RESOLUTION,
                                                        name: n,
                                                    },
                                                ),
                                            ),
                                            ..st
                                        },
                                        fuel - 1,
                                    );
                                },
                            }
                        },
                        _ => {
                            lemma_frame_run_agree_other(u, s1, s2, parent, st, fuel);
                        },
                    }
                }
            },
        }
    }
}

/// Helper for the agreement lemma: every instruction other than a name
/// load never reads the scope arena, so the recursion target is the same
/// state under both arenas.
proof fn lemma_frame_run_agree_other(
    u: CompiledUnit,
    s1: Seq<Scope>,
    s2: Seq<Scope>,
    parent: Option<usize>,
    st: RunState,
    fuel: int,
)
    requires
        chain_agrees(s1, s2, parent),
        fuel > 0,
        st.mode is Run,
        0 <= st.ip < u.instrs@.len(),
        !(u.instrs@[st.ip] is LoadName),
    ensures
        frame_run(u, s1, parent, st, fuel) == frame_run(u, s2, parent, st, fuel),
    decreases fuel, 0int,
{
    match u.instrs@[st.ip] {
        Instr::LoadConst(k) => if (k as int) < u.consts@.len() {
            lemma_frame_run_agree(
                u,
                s1,
                s2,
                parent,
                RunState { stack: st.stack.push(u.consts@[k as int]), ip: st.ip + 1, ..st },
                fuel - 1,
            );
        },
        Instr::StoreName(n) => if st.stack.len() > 0 {
            lemma_frame_run_agree(
                u,
                s1,
                s2,
                parent,
                RunState {
                    stack: st.stack.drop_last(),
                    locals: store_entry(st.locals, n, st.stack.last()),
                    ip: st.ip + 1,
                    ..st
                },
                fuel - 1,
            );
        },
        Instr::PopTop => if st.stack.len() > 0 {
            lemma_frame_run_agree(
                u,
                s1,
                s2,
                parent,
                RunState { stack: st.stack.drop_last(), ip: st.ip + 1, ..st },
                fuel - 1,
            );
        },
        Instr::Add => if st.stack.len() >= 2 {
            match (st.stack[st.stack.len() - 2], st.stack.last()) {
                (Value::Int(a), Value::Int(b)) => if i64::MIN <= a + b <= i64::MAX {
                    lemma_frame_run_agree(
                        u,
                        s1,
                        s2,
                        parent,
                        RunState {
                            stack: st.stack.drop_last().drop_last().push(
                                Value::Int((a + b) as i64),
                            ),
                            ip: st.ip + 1,
                            ..st
                        },
                        fuel - 1,
                    );
                } else {
                    lemma_frame_run_agree(
                        u,
                        s1,
                        s2,
                        parent,
                        RunState {
                            mode: RunMode::Unwind(
                                Unwind::Raising(RaisedError { kind: KIND_TYPE_MISMATCH, name: 0 }),
                            ),
                            ..st
                        },
                        fuel - 1,
                    );
                },
                _ => {
                    lemma_frame_run_agree(
                        u,
                        s1,
                        s2,
                        parent,
                        RunState {
                            mode: RunMode::Unwind(
                                Unwind::Raising(RaisedError { kind: KIND_TYPE_MISMATCH, name: 0 }),
                            ),
                            ..st
                        },
                        fuel - 1,
                    );
                },
            }
        },
        Instr::Sub => if st.stack.len() >= 2 {
            match (st.stack[st.stack.len() - 2], st.stack.last()) {
                (Value::Int(a), Value::Int(b)) => if i64::MIN <= a - b <= i64::MAX {
                    lemma_frame_run_agree(
                        u,
                        s1,
                        s2,
                        parent,
                        RunState {
                            stack: st.stack.drop_last().drop_last().push(
                                Value::Int((a - b) as i64),
                            ),
                            ip: st.ip + 1,
                            ..st
                        },
                        fuel - 1,
                    );
                } else {
                    lemma_frame_run_agree(
                        u,
                        s1,
                        s2,
                        parent,
                        RunState {
                            mode: RunMode::Unwind(
                                Unwind::Raising(RaisedError { kind: KIND_TYPE_MISMATCH, name: 0 }),
                            ),
                            ..st
                        },
                        fuel - 1,
                    );
                },
                _ => {
                    lemma_frame_run_agree(
                        u,
                        s1,
                        s2,
                        parent,
                        RunState {
                            mode: RunMode::Unwind(
                                Unwind::Raising(RaisedError { kind: KIND_TYPE_MISMATCH, name: 0 }),
                            ),
                            ..st
                        },
                        fuel - 1,
                    );
                },
            }
        },
        Instr::Jump(t) => {
            lemma_frame_run_agree(u, s1, s2, parent, RunState { ip: t as int, ..st }, fuel - 1);
        },
        Instr::JumpIfFalse(t) => if st.stack.len() > 0 {
            match st.stack.last() {
                Value::Bool(b) => {
                    lemma_frame_run_agree(
                        u,
                        s1,
                        s2,
                        parent,
                        RunState {
                            stack: st.stack.drop_last(),
                            ip: if b {
                                st.ip + 1
                            } else {
                                t as int
                            },
                            ..st
                        },
                        fuel - 1,
                    );
                },
                _ => {
                    lemma_frame_run_agree(
                        u,
                        s1,
                        s2,
                        parent,
                        RunState {
                            stack: st.stack.drop_last(),
                            mode: RunMode::Unwind(
                                Unwind::Raising(RaisedError { kind: KIND_TYPE_MISMATCH, name: 0 }),
                            ),
                            ..st
                        },
                        fuel - 1,
                    );
                },
            }
        },
        Instr::SetupLoop(b_to, c_to) => {
            lemma_frame_run_agree(
                u,
                s1,
                s2,
                parent,
                RunState {
                    blocks: st.blocks.push(Block::Loop { break_to: b_to, continue_to: c_to }),
                    ip: st.ip + 1,
                    ..st
                },
                fuel - 1,
            );
        },
        Instr::SetupHandler(kind, h_to) => {
            lemma_frame_run_agree(
                u,
                s1,
                s2,
                parent,
                RunState {
                    blocks: st.blocks.push(Block::Handler { kind, handler_to: h_to }),
                    ip: st.ip + 1,
                    ..st
                },
                fuel - 1,
            );
        },
        Instr::SetupFinally(c_to) => {
            lemma_frame_run_agree(
                u,
                s1,
                s2,
                parent,
                RunState {
                    blocks: st.blocks.push(Block::Finally { cleanup_to: c_to }),
                    ip: st.ip + 1,
                    ..st
                },
                fuel - 1,
            );
        },
        Instr::PopBlock => if st.blocks.len() > 0 {
            lemma_frame_run_agree(
                u,
                s1,
                s2,
                parent,
                RunState { blocks: st.blocks.drop_last(), ip: st.ip + 1, ..st },
                fuel - 1,
            );
        },
        Instr::Break => {
            lemma_frame_run_agree(
                u,
                s1,
                s2,
                parent,
                RunState { mode: RunMode::Unwind(Unwind::Breaking), ..st },
                fuel - 1,
            );
        },
        Instr::Continue => {
            lemma_frame_run_agree(
                u,
                s1,
                s2,
                parent,
                RunState { mode: RunMode::Unwind(Unwind::Continuing), ..st },
                fuel - 1,
            );
        },
        Instr::Raise(k) => {
            lemma_frame_run_agree(
                u,
                s1,
                s2,
                parent,
                RunState {
                    mode: RunMode::Unwind(Unwind::Raising(RaisedError { kind: k, name: 0 })),
                    ..st
                },
                fuel - 1,
            );
        },
        Instr::EndFinally => match st.pending {
            Option::None => {
                lemma_frame_run_agree(
                    u,
                    s1,
                    s2,
                    parent,
                    RunState { ip: st.ip + 1, ..st },
                    fuel - 1,
                );
            },
            Option::Some(w) => {
                lemma_frame_run_agree(
                    u,
                    s1,
                    s2,
                    parent,
                    RunState { pending: Option::None, mode: RunMode::Unwind(w), ..st },
                    fuel - 1,
                );
            },
        },
        Instr::Return => if st.stack.len() > 0 {
            lemma_frame_run_agree(
                u,
                s1,
                s2,
                parent,
                RunState {
                    stack: st.stack.drop_last(),
                    mode: RunMode::Unwind(Unwind::Returning(st.stack.last())),
                    ..st
                },
                fuel - 1,
            );
        },
        _ => {},
    }
}

} // verus!
