use vstd::prelude::*;
use crate::value::Value;
use crate::scope::{
    Scope, find_entry, store_entry, lookup_chain, scopes_wf, scope_parent_ok, scope_lookup,
};
use crate::units::{CompiledUnit, Instr, KIND_NAME_RESOLUTION, KIND_TYPE_MISMATCH, KIND_ABANDONED};
use crate::frame::{
    Frame, FrameState, Block, Unwind, UnwindOutcome, RaisedError, unwind_frame, unwind_spec,
};
use crate::model::{
    modeled_unit, modeled_instr, frame_run, run_lookup, RunState, RunMode, RunRes, bind_args,
};
use crate::scope::lemma_lookup_chain_prefix;

verus! {

/// What one drive of a frame produced: the outcome shape shared by `call`
/// and `resume`.
#[derive(Debug, PartialEq, Eq)]
pub enum Outcome {
    /// The activation finished normally with this value.
    Returned(Value),
    /// The activation suspended at a yield point: the yielded value and the
    /// handle of the frame left `Suspended`, for later `resume` calls.
    Yielded(Value, usize),
    /// An error reached the top of the driven chain with no matching
    /// handler anywhere: the unhandled-propagation fault, with the frames
    /// it left, innermost first.
    Raised(RaisedError, Vec<usize>),
}

/// An error that surfaces at the call boundary or aborts the whole chain;
/// never catchable by handler blocks.
#[derive(Clone, Copy, PartialEq, Eq, Structural, Debug)]
pub enum Fault {
    /// An attempt to obtain a frame bypassing `call`, or through a handle
    /// that `call` never produced.
    ConstructionMisuse,
    /// `resume` invoked on a frame that is not suspended.
    ExhaustedActivation,
    /// An internal-consistency violation in a compiled unit's instruction
    /// stream: always fatal, the whole driven chain is abandoned.
    MalformedInstruction,
    /// The step budget handed to `call` or `resume` ran out before the
    /// activation finished: an engine resource bound, not a language-level
    /// error. The driven chain is left mid-flight: its frames stay
    /// `Running` and cannot be resumed.
    StepLimit,
    /// A value of the wrong kind where another was required: an argument
    /// handed to the reflective frame surface that is not a frame
    /// reference.
    TypeMismatch,
}

/// What a `resume` call delivers at the suspension point.
#[derive(Clone, Copy, PartialEq, Eq, Structural, Debug)]
pub enum Injected {
    /// Deliver nothing: the yield expression evaluates to `Nil`.
    Nothing,
    /// Deliver this value as the result of the yield expression.
    Value(Value),
    /// Deliver an error of this kind at the suspension point, to be caught
    /// by the frame's own handler blocks or to unwind out of it.
    Error(u64),
}

/// Dispatch mode: executing instructions, or carrying an unwind reason
/// through block stacks and frames.
#[derive(Clone, Copy, PartialEq, Eq, Structural, Debug)]
enum Mode {
    Execute,
    Unwinding(Unwind),
}

/// The interpreter core: arenas of compiled units, scopes and frames,
/// addressed by handles. Back-references (a frame's caller, a scope's
/// parent) are handles, so no ownership cycle can form and every chain
/// walk is over plain indices.
pub struct Interp {
    /// Compiled units, immutable once added.
    pub units: Vec<CompiledUnit>,
    /// Scope arena; scopes are shared by handle between frames.
    pub scopes: Vec<Scope>,
    /// Frame arena: every activation ever created by `call`, in creation
    /// order; terminal frames stay addressable for diagnostics.
    pub frames: Vec<Frame>,
}

/// A frame holds valid handles into the arenas.
pub open spec fn frame_wf(i: Interp, f: Frame) -> bool {
    &&& (f.unit as int) < i.units@.len()
    &&& (f.scope as int) < i.scopes@.len()
    &&& match f.caller {
        Option::Some(c) => (c as int) < i.frames@.len(),
        Option::None => true,
    }
}

impl Interp {
    /// Arena well-formedness: scope parents point strictly downward (so
    /// every chain is acyclic) and every frame's handles are in range.
    pub open spec fn wf(self) -> bool {
        &&& scopes_wf(self.scopes@)
        &&& forall|j: int|
            0 <= j < self.frames@.len() ==> frame_wf(self, #[trigger] self.frames@[j])
    }

    /// An empty interpreter: no units, no scopes, no frames.
    pub fn new() -> (r: Interp)
        ensures
            r.wf(),
            r.units@.len() == 0,
            r.scopes@.len() == 0,
            r.frames@.len() == 0,
    {
        Interp { units: Vec::new(), scopes: Vec::new(), frames: Vec::new() }
    }

    /// Adds a compiled unit to the arena and returns its handle. The core
    /// never mutates a unit afterwards.
    pub fn add_unit(&mut self, u: CompiledUnit) -> (h: usize)
        requires
            old(self).wf(),
        ensures
            final(self).wf(),
            h == old(self).units@.len(),
            final(self).units@ == old(self).units@.push(u),
            final(self).scopes@ == old(self).scopes@,
            final(self).frames@ == old(self).frames@,
    {
        let h = self.units.len();
        self.units.push(u);
        proof {
            assert forall|j: int| 0 <= j < self.frames@.len() implies frame_wf(
                *self,
                #[trigger] self.frames@[j],
            ) by {
                assert(frame_wf(*old(self), self.frames@[j]));
            }
        }
        h
    }

    /// Creates an empty scope whose parent is `parent` (or the outermost
    /// scope when `None`) and returns its handle.
    pub fn new_scope(&mut self, parent: Option<usize>) -> (h: usize)
        requires
            old(self).wf(),
            match parent {
                Option::Some(p) => (p as int) < old(self).scopes@.len(),
                Option::None => true,
            },
        ensures
            final(self).wf(),
            h == old(self).scopes@.len(),
            final(self).scopes@.len() == old(self).scopes@.len() + 1,
            forall|j: int|
                0 <= j < old(self).scopes@.len() ==> final(self).scopes@[j] == old(self).scopes@[j],
            final(self).scopes@[h as int].entries@.len() == 0,
            final(self).scopes@[h as int].parent == parent,
            final(self).units@ == old(self).units@,
            final(self).frames@ == old(self).frames@,
    {
        let h = self.scopes.len();
        self.scopes.push(Scope { entries: Vec::new(), parent });
        proof {
            assert forall|i: int| 0 <= i < self.scopes@.len() implies scope_parent_ok(
                #[trigger] self.scopes@[i],
                i,
            ) by {
                if i < h {
                    assert(scope_parent_ok(old(self).scopes@[i], i));
                }
            }
            assert forall|j: int| 0 <= j < self.frames@.len() implies frame_wf(
                *self,
                #[trigger] self.frames@[j],
            ) by {
                assert(frame_wf(*old(self), self.frames@[j]));
            }
        }
        h
    }

    /// Binds `name` to `v` in the scope at handle `sh`. Every frame holding
    /// the same handle observes the write immediately: scopes are shared by
    /// reference, never copied on capture.
    pub fn scope_set(&mut self, sh: usize, name: usize, v: Value)
        requires
            old(self).wf(),
            (sh as int) < old(self).scopes@.len(),
        ensures
            final(self).wf(),
            final(self).scopes@.len() == old(self).scopes@.len(),
            forall|j: int|
                0 <= j < old(self).scopes@.len() && j != sh ==> final(self).scopes@[j] == old(
                    self,
                ).scopes@[j],
            final(self).scopes@[sh as int].entries@ == store_entry(
                old(self).scopes@[sh as int].entries@,
                name,
                v,
            ),
            final(self).scopes@[sh as int].parent == old(self).scopes@[sh as int].parent,
            final(self).units@ == old(self).units@,
            final(self).frames@ == old(self).frames@,
    {
        let sc = &mut self.scopes[sh];
        sc.store(name, v);
        proof {
            assert forall|i: int| 0 <= i < self.scopes@.len() implies scope_parent_ok(
                #[trigger] self.scopes@[i],
                i,
            ) by {
                assert(scope_parent_ok(old(self).scopes@[i], i));
                assert(self.scopes@[i].parent == old(self).scopes@[i].parent);
            }
            assert forall|j: int| 0 <= j < self.frames@.len() implies frame_wf(
                *self,
                #[trigger] self.frames@[j],
            ) by {
                assert(frame_wf(*old(self), self.frames@[j]));
            }
        }
    }

    /// Resolves `name` through the chain rooted at scope handle `sh`:
    /// local bindings first, then each enclosing scope outward.
    pub fn scope_get(&self, sh: usize, name: usize) -> (r: Option<Value>)
        requires
            self.wf(),
            (sh as int) < self.scopes@.len(),
        ensures
            r == lookup_chain(self.scopes@, sh as int, name),
    {
        scope_lookup(&self.scopes, sh, name)
    }

    /// The lifecycle state of the frame at a handle, when the handle is one
    /// that `call` produced.
    pub fn frame_state(&self, fh: usize) -> (r: Option<FrameState>)
        ensures
            match r {
                Option::Some(st) => (fh as int) < self.frames@.len() && st == self.frames@[fh as int].state,
                Option::None => (fh as int) >= self.frames@.len(),
            },
    {
        if fh < self.frames.len() {
            Option::Some(self.frames[fh].state)
        } else {
            Option::None
        }
    }
}

/// Removes the top `argc` values from an operand stack and returns them in
/// push order: the arguments of a call instruction.
fn split_args(stack: &mut Vec<Value>, argc: usize) -> (args: Vec<Value>)
    requires
        argc <= old(stack)@.len(),
    ensures
        args@ == old(stack)@.skip(old(stack)@.len() - argc as int),
        final(stack)@ == old(stack)@.take(old(stack)@.len() - argc as int),
{
    let base = stack.len() - argc;
    let mut args: Vec<Value> = Vec::new();
    let mut i: usize = 0;
    while i < argc
        invariant
            base + argc == stack@.len(),
            stack@.len() <= usize::MAX,
            stack@ == old(stack)@,
            i <= argc,
            args@ =~= old(stack)@.subrange(base as int, base + i as int),
        decreases argc - i,
    {
        args.push(stack[base + i]);
        i = i + 1;
    }
    let mut j: usize = 0;
    while j < argc
        invariant
            j <= argc,
            base + argc == old(stack)@.len(),
            stack@ =~= old(stack)@.take(old(stack)@.len() - j as int),
        decreases argc - j,
    {
        stack.pop();
        j = j + 1;
    }
    proof {
        assert(args@ =~= old(stack)@.skip(old(stack)@.len() - argc as int));
    }
    args
}

/// The parameter bindings a call installs: argument `i` bound to name id `i`.
fn bind_params(args: &Vec<Value>) -> (entries: Vec<(usize, Value)>)
    ensures
        entries@ == bind_args(args@),
{
    let mut entries: Vec<(usize, Value)> = Vec::new();
    let mut i: usize = 0;
    while i < args.len()
        invariant
            i <= args@.len(),
            entries@ =~= bind_args(args@).take(i as int),
        decreases args@.len() - i,
    {
        entries.push((i, args[i]));
        proof {
            assert(entries@ =~= bind_args(args@).take(i + 1));
        }
        i = i + 1;
    }
    proof {
        assert(entries@ =~= bind_args(args@));
    }
    entries
}

/// The outermost scope of the chain rooted at `h`: the widened write target
/// of a module/global-style store.
pub open spec fn chain_root(scopes: Seq<Scope>, h: int) -> int
    decreases h,
{
    if h < 0 || h >= scopes.len() {
        h
    } else {
        match scopes[h].parent {
            Option::Some(p) => if (p as int) < h {
                chain_root(scopes, p as int)
            } else {
                h
            },
            Option::None => h,
        }
    }
}

/// Walks a scope chain to its outermost scope.
fn chain_root_of(scopes: &Vec<Scope>, h: usize) -> (r: usize)
    requires
        scopes_wf(scopes@),
        (h as int) < scopes@.len(),
    ensures
        r == chain_root(scopes@, h as int),
        (r as int) < scopes@.len(),
{
    let mut cur: usize = h;
    loop
        invariant
            scopes_wf(scopes@),
            cur < scopes@.len(),
            chain_root(scopes@, h as int) == chain_root(scopes@, cur as int),
        decreases cur,
    {
        match scopes[cur].parent {
            Option::Some(p) => {
                proof {
                    assert(scope_parent_ok(scopes@[cur as int], cur as int));
                }
                cur = p;
            },
            Option::None => {
                return cur;
            },
        }
    }
}

/// The model state of a frame about to execute its next instruction: its
/// operand stack, the bindings of its local scope, its block stack, its
/// parked unwind reason, and its instruction pointer.
pub open spec fn frame_run_state(i: Interp, fh: int) -> RunState {
    RunState {
        stack: i.frames@[fh].stack@,
        locals: i.scopes@[i.frames@[fh].scope as int].entries@,
        blocks: i.frames@[fh].blocks@,
        pending: i.frames@[fh].pending,
        ip: i.frames@[fh].ip as int,
        mode: RunMode::Run,
    }
}

/// The frame at `fh` is suspended exactly at the model state `st`: stack,
/// bindings, blocks, parked reason and position all agree, so a resume
/// continues from precisely this state, byte for byte.
pub open spec fn suspended_matches(i: Interp, fh: int, st: RunState) -> bool {
    &&& i.frames@[fh].state == FrameState::Suspended
    &&& i.frames@[fh].stack@ == st.stack
    &&& i.frames@[fh].blocks@ == st.blocks
    &&& i.frames@[fh].pending == st.pending
    &&& i.frames@[fh].ip as int == st.ip
    &&& i.scopes@[i.frames@[fh].scope as int].entries@ == st.locals
    &&& st.mode is Run
}

/// Nothing a drive of one modeled frame may not touch has been touched:
/// the arenas kept their sizes, every scope but the frame's own is exactly
/// as before, and the frame kept its scope handle and parent.
pub open spec fn drive_preserves(i0: Interp, root: int, i1: Interp) -> bool {
    let sh = i0.frames@[root].scope as int;
    &&& i1.frames@.len() == i0.frames@.len()
    &&& i1.scopes@.len() == i0.scopes@.len()
    &&& (forall|j: int|
        0 <= j < i0.scopes@.len() && j != sh ==> i1.scopes@[j] == i0.scopes@[j])
    &&& i1.frames@[root].scope == i0.frames@[root].scope
    &&& i1.scopes@[sh].parent == i0.scopes@[sh].parent
}

/// What driving a modeled frame for at most `steps` steps produces:
/// exactly what the execution model says, outcome by outcome — the result
/// value and final bindings of a return, the exact suspension state of a
/// yield, the error and final bindings of an unhandled raise with the
/// frame itself as the whole trace, an instruction-stream fault, or a
/// spent step budget — and nothing else.
pub open spec fn modeled_outcome(i0: Interp, root: int, steps: int, i1: Interp, r: Result<
    Outcome,
    Fault,
>) -> bool {
    let f0 = i0.frames@[root];
    let u = i0.units@[f0.unit as int];
    let sh = f0.scope as int;
    let parent = i0.scopes@[sh].parent;
    &&& drive_preserves(i0, root, i1)
    &&& match frame_run(u, i0.scopes@, parent, frame_run_state(i0, root), steps) {
        RunRes::Done(v, l) => r == Result::<Outcome, Fault>::Ok(Outcome::Returned(v))
            && i1.scopes@[sh].entries@ == l && i1.frames@[root].state == FrameState::Returned(v),
        RunRes::Yielding(v, st1) => r == Result::<Outcome, Fault>::Ok(
            Outcome::Yielded(v, root as usize),
        ) && suspended_matches(i1, root, st1),
        RunRes::Raised(e, l) => (r matches Result::Ok(Outcome::Raised(e2, tr)) && e2 == e && tr@
            =~= seq![root as usize]) && i1.scopes@[sh].entries@ == l && i1.frames@[root].state
            == FrameState::Raised(e),
        RunRes::Faulted => r == Result::<Outcome, Fault>::Err(Fault::MalformedInstruction),
        RunRes::OutOfFuel => r == Result::<Outcome, Fault>::Err(Fault::StepLimit),
    }
}

/// What `call` on a modeled unit produces: exactly what the model says of
/// a run from an empty stack, the argument bindings, no blocks and offset
/// 0 — and every pre-existing scope comes through the drive untouched.
pub open spec fn modeled_call_outcome(
    i0: Interp,
    unit: int,
    args: Seq<Value>,
    enclosing: Option<usize>,
    i1: Interp,
    fh: int,
    steps: int,
    r: Result<Outcome, Fault>,
) -> bool {
    let u = i0.units@[unit];
    let st0 = RunState {
        stack: Seq::empty(),
        locals: bind_args(args),
        blocks: Seq::empty(),
        pending: Option::None,
        ip: 0,
        mode: RunMode::Run,
    };
    &&& (forall|j: int| 0 <= j < i0.scopes@.len() ==> i1.scopes@[j] == i0.scopes@[j])
    &&& match frame_run(u, i0.scopes@, enclosing, st0, steps) {
        RunRes::Done(v, l) => r == Result::<Outcome, Fault>::Ok(Outcome::Returned(v))
            && i1.frames@[fh].state == FrameState::Returned(v)
            && i1.scopes@[i1.frames@[fh].scope as int].entries@ == l,
        RunRes::Yielding(v, st1) => r == Result::<Outcome, Fault>::Ok(
            Outcome::Yielded(v, fh as usize),
        ) && suspended_matches(i1, fh, st1),
        RunRes::Raised(e, l) => (r matches Result::Ok(Outcome::Raised(e2, tr)) && e2 == e && tr@
            =~= seq![fh as usize]) && i1.frames@[fh].state == FrameState::Raised(e)
            && i1.scopes@[i1.frames@[fh].scope as int].entries@ == l,
        RunRes::Faulted => r == Result::<Outcome, Fault>::Err(Fault::MalformedInstruction),
        RunRes::OutOfFuel => r == Result::<Outcome, Fault>::Err(Fault::StepLimit),
    }
}

/// What `resume` of a modeled suspended frame produces when `v0` is
/// delivered at the suspension point: exactly what the model says of the
/// run continuing from the saved stack, blocks, parked reason and
/// position, with `v0` pushed.
pub open spec fn modeled_resume_outcome(
    i0: Interp,
    fh: int,
    v0: Value,
    i1: Interp,
    steps: int,
    r: Result<Outcome, Fault>,
) -> bool {
    let f0 = i0.frames@[fh];
    let u = i0.units@[f0.unit as int];
    let sh = f0.scope as int;
    let parent = i0.scopes@[sh].parent;
    let st = RunState {
        stack: f0.stack@.push(v0),
        locals: i0.scopes@[sh].entries@,
        blocks: f0.blocks@,
        pending: f0.pending,
        ip: f0.ip as int,
        mode: RunMode::Run,
    };
    &&& drive_preserves(i0, fh, i1)
    &&& match frame_run(u, i0.scopes@, parent, st, steps) {
        RunRes::Done(v, l) => r == Result::<Outcome, Fault>::Ok(Outcome::Returned(v))
            && i1.scopes@[sh].entries@ == l && i1.frames@[fh].state == FrameState::Returned(v),
        RunRes::Yielding(v, st1) => r == Result::<Outcome, Fault>::Ok(
            Outcome::Yielded(v, fh as usize),
        ) && suspended_matches(i1, fh, st1),
        RunRes::Raised(e, l) => (r matches Result::Ok(Outcome::Raised(e2, tr)) && e2 == e && tr@
            =~= seq![fh as usize]) && i1.scopes@[sh].entries@ == l && i1.frames@[fh].state
            == FrameState::Raised(e),
        RunRes::Faulted => r == Result::<Outcome, Fault>::Err(Fault::MalformedInstruction),
        RunRes::OutOfFuel => r == Result::<Outcome, Fault>::Err(Fault::StepLimit),
    }
}

/// What `resume` of a modeled suspended frame produces when an error of
/// kind `k` is delivered at the suspension point: the model run starts in
/// unwind mode over the frame's own block stack — its handlers may catch
/// the error, its finally bodies run — with one extra step for the
/// delivery itself.
pub open spec fn modeled_inject_outcome(
    i0: Interp,
    fh: int,
    k: u64,
    i1: Interp,
    steps: int,
    r: Result<Outcome, Fault>,
) -> bool {
    let f0 = i0.frames@[fh];
    let u = i0.units@[f0.unit as int];
    let sh = f0.scope as int;
    let parent = i0.scopes@[sh].parent;
    let st = RunState {
        stack: f0.stack@,
        locals: i0.scopes@[sh].entries@,
        blocks: f0.blocks@,
        pending: Option::None,
        ip: f0.ip as int,
        mode: RunMode::Unwind(Unwind::Raising(RaisedError { kind: k, name: 0 })),
    };
    &&& drive_preserves(i0, fh, i1)
    &&& match frame_run(u, i0.scopes@, parent, st, steps + 1) {
        RunRes::Done(v, l) => r == Result::<Outcome, Fault>::Ok(Outcome::Returned(v))
            && i1.scopes@[sh].entries@ == l && i1.frames@[fh].state == FrameState::Returned(v),
        RunRes::Yielding(v, st1) => r == Result::<Outcome, Fault>::Ok(
            Outcome::Yielded(v, fh as usize),
        ) && suspended_matches(i1, fh, st1),
        RunRes::Raised(e, l) => (r matches Result::Ok(Outcome::Raised(e2, tr)) && e2 == e && tr@
            =~= seq![fh as usize]) && i1.scopes@[sh].entries@ == l && i1.frames@[fh].state
            == FrameState::Raised(e),
        RunRes::Faulted => r == Result::<Outcome, Fault>::Err(Fault::MalformedInstruction),
        RunRes::OutOfFuel => r == Result::<Outcome, Fault>::Err(Fault::StepLimit),
    }
}

/// The value a resume call delivers at the suspension point: `Nil` when
/// nothing is injected.
pub open spec fn injected_value(injected: Injected) -> Value {
    match injected {
        Injected::Nothing => Value::Nil,
        Injected::Value(v) => v,
        Injected::Error(_) => Value::Nil,
    }
}

/// The run state of the frame the engine is driving, with the engine's
/// dispatch mode mapped onto the model's.
spec fn drive_live_state(i: Interp, root: int, mode: Mode) -> RunState {
    RunState {
        stack: i.frames@[root].stack@,
        locals: i.scopes@[i.frames@[root].scope as int].entries@,
        blocks: i.frames@[root].blocks@,
        pending: i.frames@[root].pending,
        ip: i.frames@[root].ip as int,
        mode: match mode {
            Mode::Execute => RunMode::Run,
            Mode::Unwinding(w) => RunMode::Unwind(w),
        },
    }
}

/// The dispatch engine's live model invariant: the driven chain is still
/// the single modeled frame, only its local scope has changed among the
/// old scopes, and the model, run from the current state with the fuel
/// still in hand, gives exactly what it gave from the entry state with the
/// whole budget.
spec fn modeled_live(
    i: Interp,
    root: int,
    u0: CompiledUnit,
    u0h: int,
    sh0: int,
    parent0: Option<usize>,
    scopes0: Seq<Scope>,
    flen0: int,
    slen0: int,
    mode: Mode,
    run_entry: RunRes,
    fuel: int,
) -> bool {
    &&& i.frames@.len() == flen0
    &&& i.scopes@.len() == slen0
    &&& (forall|j: int| 0 <= j < slen0 && j != sh0 ==> i.scopes@[j] == scopes0[j])
    &&& i.scopes@[sh0].parent == parent0
    &&& i.frames@[root].scope as int == sh0
    &&& i.frames@[root].unit as int == u0h
    &&& run_entry == frame_run(u0, scopes0, parent0, drive_live_state(i, root, mode), fuel)
}

/// Arena well-formedness survives a change that only rebinds entries inside
/// existing scopes.
proof fn lemma_wf_scopes_entries(i0: Interp, i1: Interp)
    requires
        i0.wf(),
        i1.units@ == i0.units@,
        i1.frames@ == i0.frames@,
        i1.scopes@.len() == i0.scopes@.len(),
        forall|j: int|
            0 <= j < i0.scopes@.len() ==> i1.scopes@[j].parent == i0.scopes@[j].parent,
    ensures
        i1.wf(),
{
    assert forall|i: int| 0 <= i < i1.scopes@.len() implies scope_parent_ok(
        #[trigger] i1.scopes@[i],
        i,
    ) by {
        assert(scope_parent_ok(i0.scopes@[i], i));
    }
    assert forall|j: int| 0 <= j < i1.frames@.len() implies frame_wf(
        i1,
        #[trigger] i1.frames@[j],
    ) by {
        assert(frame_wf(i0, i0.frames@[j]));
    }
}

/// Arena well-formedness survives a change to one frame that keeps its
/// handles (the caller handle may also be cleared).
proof fn lemma_wf_frame_fields(i0: Interp, i1: Interp, fh: int)
    requires
        i0.wf(),
        0 <= fh < i0.frames@.len(),
        i1.units@ == i0.units@,
        i1.scopes@ == i0.scopes@,
        i1.frames@.len() == i0.frames@.len(),
        forall|j: int| 0 <= j < i0.frames@.len() && j != fh ==> i1.frames@[j] == i0.frames@[j],
        i1.frames@[fh].unit == i0.frames@[fh].unit,
        i1.frames@[fh].scope == i0.frames@[fh].scope,
        i1.frames@[fh].caller is None || i1.frames@[fh].caller == i0.frames@[fh].caller,
    ensures
        i1.wf(),
{
    assert forall|j: int| 0 <= j < i1.frames@.len() implies frame_wf(
        i1,
        #[trigger] i1.frames@[j],
    ) by {
        if j != fh {
            assert(frame_wf(i0, i0.frames@[j]));
        } else {
            assert(frame_wf(i0, i0.frames@[fh]));
        }
    }
}

/// The nearest scope of the chain rooted at `h` that binds `name`: the
/// widened write target of a nonlocal-style store, searched from the
/// frame's enclosing scope outward.
pub open spec fn binding_scope(scopes: Seq<Scope>, h: int, name: usize) -> Option<int>
    decreases h,
{
    if h < 0 || h >= scopes.len() {
        Option::<int>::None
    } else if find_entry(scopes[h].entries@, name) is Some {
        Option::Some(h)
    } else {
        match scopes[h].parent {
            Option::Some(p) => if (p as int) < h {
                binding_scope(scopes, p as int, name)
            } else {
                Option::<int>::None
            },
            Option::None => Option::<int>::None,
        }
    }
}

/// Walks a scope chain to the nearest scope that binds `name`.
fn binding_scope_of(scopes: &Vec<Scope>, h: usize, name: usize) -> (r: Option<usize>)
    requires
        scopes_wf(scopes@),
        (h as int) < scopes@.len(),
    ensures
        match r {
            Option::Some(t) => (t as int) < scopes@.len() && binding_scope(scopes@, h as int, name)
                == Option::Some(t as int),
            Option::None => binding_scope(scopes@, h as int, name) is None,
        },
{
    let mut cur: usize = h;
    loop
        invariant
            scopes_wf(scopes@),
            cur < scopes@.len(),
            binding_scope(scopes@, h as int, name) == binding_scope(scopes@, cur as int, name),
        decreases cur,
    {
        match crate::scope::find_in(&scopes[cur].entries, name) {
            Option::Some(_) => {
                return Option::Some(cur);
            },
            Option::None => {
                match scopes[cur].parent {
                    Option::Some(p) => {
                        proof {
                            assert(scope_parent_ok(scopes@[cur as int], cur as int));
                        }
                        cur = p;
                    },
                    Option::None => {
                        return Option::None;
                    },
                }
            },
        }
    }
}

/// Binds `name` to `v` in the scope at handle `sh` of an arena; everything
/// else is untouched.
fn arena_store(scopes: &mut Vec<Scope>, sh: usize, name: usize, v: Value)
    requires
        (sh as int) < old(scopes)@.len(),
    ensures
        final(scopes)@.len() == old(scopes)@.len(),
        forall|j: int|
            0 <= j < old(scopes)@.len() && j != sh ==> final(scopes)@[j] == old(scopes)@[j],
        final(scopes)@[sh as int].entries@ == store_entry(
            old(scopes)@[sh as int].entries@,
            name,
            v,
        ),
        final(scopes)@[sh as int].parent == old(scopes)@[sh as int].parent,
{
    let sc = &mut scopes[sh];
    sc.store(name, v);
}

/// Whether frame handle `j` is on the driven chain.
spec fn in_chain(chain: Seq<usize>, j: int) -> bool {
    exists|k: int| 0 <= k < chain.len() && (#[trigger] chain[k]) as int == j
}

/// Chain membership after a push: the old members and the new one.
proof fn lemma_in_chain_push(chain: Seq<usize>, x: usize, j: int)
    ensures
        in_chain(chain.push(x), j) <==> (in_chain(chain, j) || j == x as int),
{
    if in_chain(chain, j) {
        let k = choose|k: int| 0 <= k < chain.len() && (#[trigger] chain[k]) as int == j;
        assert(chain.push(x)[k] as int == j);
    }
    if j == x as int {
        assert(chain.push(x)[chain.len() as int] as int == j);
    }
    if in_chain(chain.push(x), j) {
        let k = choose|k: int|
            0 <= k < chain.push(x).len() && (#[trigger] chain.push(x)[k]) as int == j;
        if k < chain.len() {
            assert(chain[k] as int == j);
        }
    }
}

/// A one-frame chain holds only the root.
proof fn lemma_chain_single(chain: Seq<usize>, root: usize, j: int)
    requires
        chain.len() == 1,
        chain[0] == root,
        j != root as int,
    ensures
        !in_chain(chain, j),
{
    if in_chain(chain, j) {
        let k = choose|k: int| 0 <= k < chain.len() && (#[trigger] chain[k]) as int == j;
        assert(k == 0);
    }
}

/// Chain membership after dropping the top: the old members except,
/// possibly, the dropped one.
proof fn lemma_in_chain_drop(chain: Seq<usize>, j: int)
    requires
        chain.len() >= 1,
    ensures
        in_chain(chain.drop_last(), j) ==> in_chain(chain, j),
        in_chain(chain, j) && j != chain.last() as int ==> in_chain(chain.drop_last(), j),
{
    if in_chain(chain.drop_last(), j) {
        let k = choose|k: int|
            0 <= k < chain.drop_last().len() && (#[trigger] chain.drop_last()[k]) as int == j;
        assert(chain[k] as int == j);
    }
    if in_chain(chain, j) && j != chain.last() as int {
        let k = choose|k: int| 0 <= k < chain.len() && (#[trigger] chain[k]) as int == j;
        assert(k < chain.len() - 1);
        assert(chain.drop_last()[k] as int == j);
    }
}

impl Interp {
    /// The dispatch engine: fetch, decode and execute instructions of the
    /// frame at `root` — and of the child frames its calls create — for at
    /// most `steps` steps, until the root activation returns, suspends at a
    /// yield point, or an error unwinds out of it unhandled. Re-entrant
    /// drives are ordinary calls: control is strictly stack-disciplined,
    /// and only the driven chain is touched among the pre-existing frames.
    /// For a frame whose unit is modeled, the outcome and the final state
    /// are exactly what the execution model prescribes.
    #[verifier::rlimit(100)]
    fn drive(&mut self, root: usize, steps: usize) -> (r: Result<Outcome, Fault>)
        requires
            old(self).wf(),
            (root as int) < old(self).frames@.len(),
            old(self).frames@[root as int].state == FrameState::Running,
        ensures
            final(self).wf(),
            final(self).units@ == old(self).units@,
            final(self).scopes@.len() >= old(self).scopes@.len(),
            forall|j: int|
                0 <= j < old(self).scopes@.len() ==> final(self).scopes@[j].parent == old(
                    self,
                ).scopes@[j].parent,
            final(self).frames@.len() >= old(self).frames@.len(),
            forall|j: int|
                0 <= j < old(self).frames@.len() && j != root ==> final(self).frames@[j] == old(
                    self,
                ).frames@[j],
            final(self).frames@[root as int].unit == old(self).frames@[root as int].unit,
            final(self).frames@[root as int].scope == old(self).frames@[root as int].scope,
            old(self).frames@[root as int].caller is None
                ==> final(self).frames@[root as int].caller is None,
            match r {
                Result::Ok(Outcome::Returned(v)) => final(self).frames@[root as int].state
                    == FrameState::Returned(v),
                Result::Ok(Outcome::Yielded(v, fh)) => fh == root
                    && final(self).frames@[root as int].state == FrameState::Suspended,
                Result::Ok(Outcome::Raised(e, tr)) => final(self).frames@[root as int].state
                    == FrameState::Raised(e) && tr@.len() >= 1 && tr@.last() == root && (forall|
                    k: int,
                |
                    0 <= k < tr@.len() ==> (#[trigger] tr@[k] as int) < final(self).frames@.len()
                        && final(self).frames@[tr@[k] as int].state == FrameState::Raised(e))
                    && (forall|k1: int, k2: int|
                    #![trigger tr@[k1], tr@[k2]]
                    0 <= k1 < k2 < tr@.len() ==> tr@[k1] > tr@[k2]),
                Result::Err(f) => f == Fault::MalformedInstruction || f == Fault::StepLimit,
            },
            r == Result::<Outcome, Fault>::Err(Fault::StepLimit)
                ==> final(self).frames@[root as int].state == FrameState::Running,
            r is Ok ==> (forall|j: int|
                old(self).frames@.len() <= j < final(self).frames@.len() ==> !(#[trigger] final(self).frames@[j].state is Running)),
            modeled_unit(
                old(self).units@[old(self).frames@[root as int].unit as int],
            ) ==> modeled_outcome(*old(self), root as int, steps as int, *final(self), r),
    {
        let ghost frames0 = self.frames@;
        let ghost scopes0 = self.scopes@;
        let ghost flen0 = self.frames@.len() as int;
        let ghost slen0 = self.scopes@.len() as int;
        let ghost u0h = self.frames@[root as int].unit as int;
        let ghost u0 = self.units@[u0h];
        let ghost sh0 = self.frames@[root as int].scope as int;
        let ghost parent0 = self.scopes@[sh0].parent;
        let ghost st_entry = frame_run_state(*self, root as int);
        let ghost steps0 = steps as int;
        let ghost hyp = modeled_unit(u0);
        let ghost run_entry = frame_run(u0, scopes0, parent0, st_entry, steps0);
        proof {
            assert(frame_wf(*self, self.frames@[root as int]));
        }

        let mut fuel: usize = steps;
        let mut chain: Vec<usize> = Vec::new();
        chain.push(root);
        let mut cur: usize = root;
        let mut mode: Mode = Mode::Execute;
        let mut trace: Vec<usize> = Vec::new();

        loop
            invariant
                frames0 == old(self).frames@,
                scopes0 == old(self).scopes@,
                flen0 == old(self).frames@.len(),
                slen0 == old(self).scopes@.len(),
                (root as int) < flen0,
                u0h == frames0[root as int].unit as int,
                0 <= u0h < old(self).units@.len(),
                u0 == old(self).units@[u0h],
                sh0 == frames0[root as int].scope as int,
                0 <= sh0 < slen0,
                parent0 == scopes0[sh0].parent,
                st_entry == frame_run_state(*old(self), root as int),
                steps0 == steps as int,
                hyp == modeled_unit(u0),
                run_entry == frame_run(u0, scopes0, parent0, st_entry, steps0),
                self.wf(),
                self.units@ == old(self).units@,
                self.scopes@.len() >= slen0,
                forall|j: int|
                    0 <= j < slen0 ==> self.scopes@[j].parent == scopes0[j].parent,
                self.frames@.len() >= flen0,
                forall|j: int|
                    0 <= j < flen0 && j != root ==> self.frames@[j] == frames0[j],
                self.frames@[root as int].unit == frames0[root as int].unit,
                self.frames@[root as int].scope == frames0[root as int].scope,
                self.frames@[root as int].caller == frames0[root as int].caller
                    || self.frames@[root as int].caller is None,
                chain@.len() >= 1,
                chain@[0] == root,
                cur == chain@[chain@.len() - 1],
                (cur as int) < self.frames@.len(),
                forall|k: int|
                    0 <= k < chain@.len() ==> (#[trigger] chain@[k] as int) < self.frames@.len(),
                forall|k: int| 1 <= k < chain@.len() ==> (#[trigger] chain@[k] as int) >= flen0,
                forall|k: int|
                    0 <= k < chain@.len() ==> self.frames@[#[trigger] chain@[k] as int].state
                        == FrameState::Running,
                forall|k1: int, k2: int|
                    #![trigger chain@[k1], chain@[k2]]
                    0 <= k1 < k2 < chain@.len() ==> chain@[k1] < chain@[k2],
                forall|j: int|
                    flen0 <= j < self.frames@.len() && !in_chain(chain@, j) ==> !(
                    #[trigger] self.frames@[j].state is Running),
                match mode {
                    Mode::Unwinding(w) => match w {
                        Unwind::Raising(e) => (forall|k: int|
                            0 <= k < trace@.len() ==> (#[trigger] trace@[k] as int)
                                < self.frames@.len() && self.frames@[trace@[k] as int].state
                                == FrameState::Raised(e) && trace@[k] > cur) && (forall|
                            k1: int,
                            k2: int,
                        |
                            #![trigger trace@[k1], trace@[k2]]
                            0 <= k1 < k2 < trace@.len() ==> trace@[k1] > trace@[k2]),
                        _ => trace@.len() == 0,
                    },
                    Mode::Execute => trace@.len() == 0,
                },
                hyp ==> (modeled_live(
                    *self,
                    root as int,
                    u0,
                    u0h,
                    sh0,
                    parent0,
                    scopes0,
                    flen0,
                    slen0,
                    mode,
                    run_entry,
                    fuel as int,
                ) && chain@.len() == 1 && trace@.len() == 0),
            decreases fuel,
        {
            let ghost snap = *self;
            let ghost fuel_head = fuel as int;
            let ghost mode_head = mode;
            proof {
                assert(frame_wf(*self, self.frames@[cur as int]));
                if hyp {
                    assert(chain@.last() == chain@[0]);
                    assert(cur == root);
                }
            }
            if fuel == 0 {
                proof {
                    assert(self.frames@[chain@[0] as int].state == FrameState::Running);
                }
                return Result::Err(Fault::StepLimit);
            }
            fuel = fuel - 1;
            match mode {
                Mode::Execute => {
                    let uh = self.frames[cur].unit;
                    let f_ip = self.frames[cur].ip;
                    let nins = self.units[uh].instrs.len();
                    if f_ip >= nins {
                        return Result::Err(Fault::MalformedInstruction);
                    }
                    let ins = self.units[uh].instrs[f_ip];
                    proof {
                        if hyp {
                            assert(ins == u0.instrs@[f_ip as int]);
                            assert(modeled_instr(u0.instrs@[f_ip as int]));
                        }
                    }
                    match ins {
                        Instr::LoadConst(k) => {
                            if k >= self.units[uh].consts.len() {
                                return Result::Err(Fault::MalformedInstruction);
                            }
                            let v = self.units[uh].consts[k];
                            self.frames[cur].stack.push(v);
                            self.frames[cur].ip = f_ip + 1;
                            proof {
                                lemma_wf_frame_fields(snap, *self, cur as int);
                                if hyp {
                                    let sst = drive_live_state(snap, root as int, Mode::Execute);
                                    let nst = RunState {
                                        stack: sst.stack.push(u0.consts@[k as int]),
                                        ip: sst.ip + 1,
                                        ..sst
                                    };
                                    assert(frame_run(u0, scopes0, parent0, sst, fuel_head)
                                        == frame_run(u0, scopes0, parent0, nst, fuel_head - 1));
                                    assert(drive_live_state(*self, root as int, Mode::Execute)
                                        == nst);
                                }
                            }
                        },
                        Instr::LoadName(n) => {
                            let sh = self.frames[cur].scope;
                            let looked = scope_lookup(&self.scopes, sh, n);
                            proof {
                                if hyp {
                                    let sst = drive_live_state(snap, root as int, Mode::Execute);
                                    assert(scope_parent_ok(snap.scopes@[sh0], sh0));
                                    if find_entry(sst.locals, n) is None {
                                        match parent0 {
                                            Option::Some(p) => {
                                                lemma_lookup_chain_prefix(
                                                    snap.scopes@,
                                                    scopes0,
                                                    p as int,
                                                    n,
                                                );
                                            },
                                            Option::None => {},
                                        }
                                    }
                                    assert(looked == run_lookup(scopes0, parent0, sst.locals, n));
                                }
                            }
                            match looked {
                                Option::Some(v) => {
                                    self.frames[cur].stack.push(v);
                                    self.frames[cur].ip = f_ip + 1;
                                    proof {
                                        lemma_wf_frame_fields(snap, *self, cur as int);
                                        if hyp {
                                            let sst = drive_live_state(
                                                snap,
                                                root as int,
                                                Mode::Execute,
                                            );
                                            let nst = RunState {
                                                stack: sst.stack.push(v),
                                                ip: sst.ip + 1,
                                                ..sst
                                            };
                                            assert(frame_run(u0, scopes0, parent0, sst, fuel_head)
                                                == frame_run(
                                                u0,
                                                scopes0,
                                                parent0,
                                                nst,
                                                fuel_head - 1,
                                            ));
                                            assert(drive_live_state(
                                                *self,
                                                root as int,
                                                Mode::Execute,
                                            ) == nst);
                                        }
                                    }
                                },
                                Option::None => {
                                    mode = Mode::Unwinding(
                                        Unwind::Raising(
                                            RaisedError { kind: KIND_NAME_RESOLUTION, name: n },
                                        ),
                                    );
                                    proof {
                                        if hyp {
                                            let sst = drive_live_state(
                                                snap,
                                                root as int,
                                                Mode::Execute,
                                            );
                                            let nst = RunState {
                                                mode: RunMode::Unwind(
                                                    Unwind::Raising(
                                                        RaisedError {
                                                            kind: KIND_NAME_RESOLUTION,
                                                            name: n,
                                                        },
                                                    ),
                                                ),
                                                ..sst
                                            };
                                            assert(frame_run(u0, scopes0, parent0, sst, fuel_head)
                                                == frame_run(
                                                u0,
                                                scopes0,
                                                parent0,
                                                nst,
                                                fuel_head - 1,
                                            ));
                                            assert(drive_live_state(*self, root as int, mode)
                                                == nst);
                                        }
                                    }
                                },
                            }
                        },
                        Instr::StoreName(n) => {
                            let slen = self.frames[cur].stack.len();
                            if slen == 0 {
                                return Result::Err(Fault::MalformedInstruction);
                            }
                            let v = match self.frames[cur].stack.pop() {
                                Option::Some(v) => v,
                                Option::None => {
                                    return Result::Err(Fault::MalformedInstruction);
                                },
                            };
                            let sh = self.frames[cur].scope;
                            let ghost mid = *self;
                            arena_store(&mut self.scopes, sh, n, v);
                            self.frames[cur].ip = f_ip + 1;
                            proof {
                                assert(Interp {
                                    units: mid.units,
                                    scopes: snap.scopes,
                                    frames: mid.frames,
                                }.wf()) by {
                                    lemma_wf_frame_fields(
                                        snap,
                                        Interp {
                                            units: mid.units,
                                            scopes: snap.scopes,
                                            frames: mid.frames,
                                        },
                                        cur as int,
                                    );
                                }
                                lemma_wf_scopes_entries(
                                    Interp { units: mid.units, scopes: snap.scopes, frames: mid.frames },
                                    Interp { units: mid.units, scopes: self.scopes, frames: mid.frames },
                                );
                                lemma_wf_frame_fields(
                                    Interp { units: mid.units, scopes: self.scopes, frames: mid.frames },
                                    *self,
                                    cur as int,
                                );
                                if hyp {
                                    let sst = drive_live_state(snap, root as int, Mode::Execute);
                                    let nst = RunState {
                                        stack: sst.stack.drop_last(),
                                        locals: store_entry(sst.locals, n, sst.stack.last()),
                                        ip: sst.ip + 1,
                                        ..sst
                                    };
                                    assert(v == sst.stack.last());
                                    assert(frame_run(u0, scopes0, parent0, sst, fuel_head)
                                        == frame_run(u0, scopes0, parent0, nst, fuel_head - 1));
                                    assert(drive_live_state(*self, root as int, Mode::Execute).stack
                                        =~= nst.stack);
                                    assert(drive_live_state(*self, root as int, Mode::Execute)
                                        == nst);
                                }
                            }
                        },
                        Instr::StoreModule(n) => {
                            proof {
                                if hyp {
                                    assert(false);
                                }
                            }
                            let slen = self.frames[cur].stack.len();
                            if slen == 0 {
                                return Result::Err(Fault::MalformedInstruction);
                            }
                            let v = match self.frames[cur].stack.pop() {
                                Option::Some(v) => v,
                                Option::None => {
                                    return Result::Err(Fault::MalformedInstruction);
                                },
                            };
                            let sh = self.frames[cur].scope;
                            let rootsh = chain_root_of(&self.scopes, sh);
                            let ghost mid = *self;
                            arena_store(&mut self.scopes, rootsh, n, v);
                            self.frames[cur].ip = f_ip + 1;
                            proof {
                                assert(Interp {
                                    units: mid.units,
                                    scopes: snap.scopes,
                                    frames: mid.frames,
                                }.wf()) by {
                                    lemma_wf_frame_fields(
                                        snap,
                                        Interp {
                                            units: mid.units,
                                            scopes: snap.scopes,
                                            frames: mid.frames,
                                        },
                                        cur as int,
                                    );
                                }
                                lemma_wf_scopes_entries(
                                    Interp { units: mid.units, scopes: snap.scopes, frames: mid.frames },
                                    Interp { units: mid.units, scopes: self.scopes, frames: mid.frames },
                                );
                                lemma_wf_frame_fields(
                                    Interp { units: mid.units, scopes: self.scopes, frames: mid.frames },
                                    *self,
                                    cur as int,
                                );
                            }
                        },
                        Instr::StoreEnclosing(n) => {
                            proof {
                                if hyp {
                                    assert(false);
                                }
                            }
                            let slen = self.frames[cur].stack.len();
                            if slen == 0 {
                                return Result::Err(Fault::MalformedInstruction);
                            }
                            let v = match self.frames[cur].stack.pop() {
                                Option::Some(v) => v,
                                Option::None => {
                                    return Result::Err(Fault::MalformedInstruction);
                                },
                            };
                            let sh = self.frames[cur].scope;
                            proof {
                                assert(frame_wf(*self, self.frames@[cur as int]));
                                assert(scope_parent_ok(self.scopes@[sh as int], sh as int));
                            }
                            let target = match self.scopes[sh].parent {
                                Option::Some(p) => binding_scope_of(&self.scopes, p, n),
                                Option::None => Option::None,
                            };
                            match target {
                                Option::Some(t) => {
                                    let ghost mid = *self;
                                    arena_store(&mut self.scopes, t, n, v);
                                    self.frames[cur].ip = f_ip + 1;
                                    proof {
                                        assert(Interp {
                                            units: mid.units,
                                            scopes: snap.scopes,
                                            frames: mid.frames,
                                        }.wf()) by {
                                            lemma_wf_frame_fields(
                                                snap,
                                                Interp {
                                                    units: mid.units,
                                                    scopes: snap.scopes,
                                                    frames: mid.frames,
                                                },
                                                cur as int,
                                            );
                                        }
                                        lemma_wf_scopes_entries(
                                            Interp {
                                                units: mid.units,
                                                scopes: snap.scopes,
                                                frames: mid.frames,
                                            },
                                            Interp {
                                                units: mid.units,
                                                scopes: self.scopes,
                                                frames: mid.frames,
                                            },
                                        );
                                        lemma_wf_frame_fields(
                                            Interp {
                                                units: mid.units,
                                                scopes: self.scopes,
                                                frames: mid.frames,
                                            },
                                            *self,
                                            cur as int,
                                        );
                                    }
                                },
                                Option::None => {
                                    mode = Mode::Unwinding(
                                        Unwind::Raising(
                                            RaisedError { kind: KIND_NAME_RESOLUTION, name: n },
                                        ),
                                    );
                                    proof {
                                        lemma_wf_frame_fields(snap, *self, cur as int);
                                    }
                                },
                            }
                        },
                        Instr::PopTop => {
                            let slen = self.frames[cur].stack.len();
                            if slen == 0 {
                                return Result::Err(Fault::MalformedInstruction);
                            }
                            self.frames[cur].stack.pop();
                            self.frames[cur].ip = f_ip + 1;
                            proof {
                                lemma_wf_frame_fields(snap, *self, cur as int);
                                if hyp {
                                    let sst = drive_live_state(snap, root as int, Mode::Execute);
                                    let nst = RunState {
                                        stack: sst.stack.drop_last(),
                                        ip: sst.ip + 1,
                                        ..sst
                                    };
                                    assert(frame_run(u0, scopes0, parent0, sst, fuel_head)
                                        == frame_run(u0, scopes0, parent0, nst, fuel_head - 1));
                                    assert(drive_live_state(*self, root as int, Mode::Execute)
                                        == nst);
                                }
                            }
                        },
                        Instr::Add => {
                            let slen = self.frames[cur].stack.len();
                            if slen < 2 {
                                return Result::Err(Fault::MalformedInstruction);
                            }
                            let b = self.frames[cur].stack[slen - 1];
                            let a = self.frames[cur].stack[slen - 2];
                            match (a, b) {
                                (Value::Int(x), Value::Int(y)) => {
                                    match x.checked_add(y) {
                                        Option::Some(z) => {
                                            self.frames[cur].stack.pop();
                                            self.frames[cur].stack.pop();
                                            self.frames[cur].stack.push(Value::Int(z));
                                            self.frames[cur].ip = f_ip + 1;
                                            proof {
                                                lemma_wf_frame_fields(snap, *self, cur as int);
                                                if hyp {
                                                    let sst = drive_live_state(
                                                        snap,
                                                        root as int,
                                                        Mode::Execute,
                                                    );
                                                    let nst = RunState {
                                                        stack: sst.stack.drop_last().drop_last().push(
                                                            Value::Int((x + y) as i64),
                                                        ),
                                                        ip: sst.ip + 1,
                                                        ..sst
                                                    };
                                                    assert(frame_run(
                                                        u0,
                                                        scopes0,
                                                        parent0,
                                                        sst,
                                                        fuel_head,
                                                    ) == frame_run(
                                                        u0,
                                                        scopes0,
                                                        parent0,
                                                        nst,
                                                        fuel_head - 1,
                                                    ));
                                                    assert(drive_live_state(
                                                        *self,
                                                        root as int,
                                                        Mode::Execute,
                                                    ) == nst);
                                                }
                                            }
                                        },
                                        Option::None => {
                                            mode = Mode::Unwinding(
                                                Unwind::Raising(
                                                    RaisedError { kind: KIND_TYPE_MISMATCH, name: 0 },
                                                ),
                                            );
                                            proof {
                                                if hyp {
                                                    let sst = drive_live_state(
                                                        snap,
                                                        root as int,
                                                        Mode::Execute,
                                                    );
                                                    let nst = RunState {
                                                        mode: RunMode::Unwind(
                                                            Unwind::Raising(
                                                                RaisedError {
                                                                    kind: KIND_TYPE_MISMATCH,
                                                                    name: 0,
                                                                },
                                                            ),
                                                        ),
                                                        ..sst
                                                    };
                                                    assert(frame_run(
                                                        u0,
                                                        scopes0,
                                                        parent0,
                                                        sst,
                                                        fuel_head,
                                                    ) == frame_run(
                                                        u0,
                                                        scopes0,
                                                        parent0,
                                                        nst,
                                                        fuel_head - 1,
                                                    ));
                                                    assert(drive_live_state(
                                                        *self,
                                                        root as int,
                                                        mode,
                                                    ) == nst);
                                                }
                                            }
                                        },
                                    }
                                },
                                _ => {
                                    mode = Mode::Unwinding(
                                        Unwind::Raising(
                                            RaisedError { kind: KIND_TYPE_MISMATCH, name: 0 },
                                        ),
                                    );
                                    proof {
                                        if hyp {
                                            let sst = drive_live_state(
                                                snap,
                                                root as int,
                                                Mode::Execute,
                                            );
                                            let nst = RunState {
                                                mode: RunMode::Unwind(
                                                    Unwind::Raising(
                                                        RaisedError {
                                                            kind: KIND_TYPE_MISMATCH,
                                                            name: 0,
                                                        },
                                                    ),
                                                ),
                                                ..sst
                                            };
                                            assert(frame_run(u0, scopes0, parent0, sst, fuel_head)
                                                == frame_run(
                                                u0,
                                                scopes0,
                                                parent0,
                                                nst,
                                                fuel_head - 1,
                                            ));
                                            assert(drive_live_state(*self, root as int, mode)
                                                == nst);
                                        }
                                    }
                                },
                            }
                        },
                        Instr::Sub => {
                            let slen = self.frames[cur].stack.len();
                            if slen < 2 {
                                return Result::Err(Fault::MalformedInstruction);
                            }
                            let b = self.frames[cur].stack[slen - 1];
                            let a = self.frames[cur].stack[slen - 2];
                            match (a, b) {
                                (Value::Int(x), Value::Int(y)) => {
                                    match x.checked_sub(y) {
                                        Option::Some(z) => {
                                            self.frames[cur].stack.pop();
                                            self.frames[cur].stack.pop();
                                            self.frames[cur].stack.push(Value::Int(z));
                                            self.frames[cur].ip = f_ip + 1;
                                            proof {
                                                lemma_wf_frame_fields(snap, *self, cur as int);
                                                if hyp {
                                                    let sst = drive_live_state(
                                                        snap,
                                                        root as int,
                                                        Mode::Execute,
                                                    );
                                                    let nst = RunState {
                                                        stack: sst.stack.drop_last().drop_last().push(
                                                            Value::Int((x - y) as i64),
                                                        ),
                                                        ip: sst.ip + 1,
                                                        ..sst
                                                    };
                                                    assert(frame_run(
                                                        u0,
                                                        scopes0,
                                                        parent0,
                                                        sst,
                                                        fuel_head,
                                                    ) == frame_run(
                                                        u0,
                                                        scopes0,
                                                        parent0,
                                                        nst,
                                                        fuel_head - 1,
                                                    ));
                                                    assert(drive_live_state(
                                                        *self,
                                                        root as int,
                                                        Mode::Execute,
                                                    ) == nst);
                                                }
                                            }
                                        },
                                        Option::None => {
                                            mode = Mode::Unwinding(
                                                Unwind::Raising(
                                                    RaisedError { kind: KIND_TYPE_MISMATCH, name: 0 },
                                                ),
                                            );
                                            proof {
                                                if hyp {
                                                    let sst = drive_live_state(
                                                        snap,
                                                        root as int,
                                                        Mode::Execute,
                                                    );
                                                    let nst = RunState {
                                                        mode: RunMode::Unwind(
                                                            Unwind::Raising(
                                                                RaisedError {
                                                                    kind: KIND_TYPE_MISMATCH,
                                                                    name: 0,
                                                                },
                                                            ),
                                                        ),
                                                        ..sst
                                                    };
                                                    assert(frame_run(
                                                        u0,
                                                        scopes0,
                                                        parent0,
                                                        sst,
                                                        fuel_head,
                                                    ) == frame_run(
                                                        u0,
                                                        scopes0,
                                                        parent0,
                                                        nst,
                                                        fuel_head - 1,
                                                    ));
                                                    assert(drive_live_state(
                                                        *self,
                                                        root as int,
                                                        mode,
                                                    ) == nst);
                                                }
                                            }
                                        },
                                    }
                                },
                                _ => {
                                    mode = Mode::Unwinding(
                                        Unwind::Raising(
                                            RaisedError { kind: KIND_TYPE_MISMATCH, name: 0 },
                                        ),
                                    );
                                    proof {
                                        if hyp {
                                            let sst = drive_live_state(
                                                snap,
                                                root as int,
                                                Mode::Execute,
                                            );
                                            let nst = RunState {
                                                mode: RunMode::Unwind(
                                                    Unwind::Raising(
                                                        RaisedError {
                                                            kind: KIND_TYPE_MISMATCH,
                                                            name: 0,
                                                        },
                                                    ),
                                                ),
                                                ..sst
                                            };
                                            assert(frame_run(u0, scopes0, parent0, sst, fuel_head)
                                                == frame_run(
                                                u0,
                                                scopes0,
                                                parent0,
                                                nst,
                                                fuel_head - 1,
                                            ));
                                            assert(drive_live_state(*self, root as int, mode)
                                                == nst);
                                        }
                                    }
                                },
                            }
                        },
                        Instr::Jump(t) => {
                            self.frames[cur].ip = t;
                            proof {
                                lemma_wf_frame_fields(snap, *self, cur as int);
                                if hyp {
                                    let sst = drive_live_state(snap, root as int, Mode::Execute);
                                    let nst = RunState { ip: t as int, ..sst };
                                    assert(frame_run(u0, scopes0, parent0, sst, fuel_head)
                                        == frame_run(u0, scopes0, parent0, nst, fuel_head - 1));
                                    assert(drive_live_state(*self, root as int, Mode::Execute)
                                        == nst);
                                }
                            }
                        },
                        Instr::JumpIfFalse(t) => {
                            let slen = self.frames[cur].stack.len();
                            if slen == 0 {
                                return Result::Err(Fault::MalformedInstruction);
                            }
                            let c = match self.frames[cur].stack.pop() {
                                Option::Some(c) => c,
                                Option::None => {
                                    return Result::Err(Fault::MalformedInstruction);
                                },
                            };
                            match c {
                                Value::Bool(b) => {
                                    if b {
                                        self.frames[cur].ip = f_ip + 1;
                                    } else {
                                        self.frames[cur].ip = t;
                                    }
                                    proof {
                                        lemma_wf_frame_fields(snap, *self, cur as int);
                                        if hyp {
                                            let sst = drive_live_state(
                                                snap,
                                                root as int,
                                                Mode::Execute,
                                            );
                                            let nst = RunState {
                                                stack: sst.stack.drop_last(),
                                                ip: if b {
                                                    sst.ip + 1
                                                } else {
                                                    t as int
                                                },
                                                ..sst
                                            };
                                            assert(c == sst.stack.last());
                                            assert(frame_run(u0, scopes0, parent0, sst, fuel_head)
                                                == frame_run(
                                                u0,
                                                scopes0,
                                                parent0,
                                                nst,
                                                fuel_head - 1,
                                            ));
                                            assert(drive_live_state(
                                                *self,
                                                root as int,
                                                Mode::Execute,
                                            ) == nst);
                                        }
                                    }
                                },
                                _ => {
                                    mode = Mode::Unwinding(
                                        Unwind::Raising(
                                            RaisedError { kind: KIND_TYPE_MISMATCH, name: 0 },
                                        ),
                                    );
                                    proof {
                                        lemma_wf_frame_fields(snap, *self, cur as int);
                                        if hyp {
                                            let sst = drive_live_state(
                                                snap,
                                                root as int,
                                                Mode::Execute,
                                            );
                                            let nst = RunState {
                                                stack: sst.stack.drop_last(),
                                                mode: RunMode::Unwind(
                                                    Unwind::Raising(
                                                        RaisedError {
                                                            kind: KIND_TYPE_MISMATCH,
                                                            name: 0,
                                                        },
                                                    ),
                                                ),
                                                ..sst
                                            };
                                            assert(c == sst.stack.last());
                                            assert(frame_run(u0, scopes0, parent0, sst, fuel_head)
                                                == frame_run(
                                                u0,
                                                scopes0,
                                                parent0,
                                                nst,
                                                fuel_head - 1,
                                            ));
                                            assert(drive_live_state(*self, root as int, mode)
                                                == nst);
                                        }
                                    }
                                },
                            }
                        },
                        Instr::SetupLoop(b_to, c_to) => {
                            self.frames[cur].blocks.push(
                                Block::Loop { break_to: b_to, continue_to: c_to },
                            );
                            self.frames[cur].ip = f_ip + 1;
                            proof {
                                lemma_wf_frame_fields(snap, *self, cur as int);
                                if hyp {
                                    let sst = drive_live_state(snap, root as int, Mode::Execute);
                                    let nst = RunState {
                                        blocks: sst.blocks.push(
                                            Block::Loop { break_to: b_to, continue_to: c_to },
                                        ),
                                        ip: sst.ip + 1,
                                        ..sst
                                    };
                                    assert(frame_run(u0, scopes0, parent0, sst, fuel_head)
                                        == frame_run(u0, scopes0, parent0, nst, fuel_head - 1));
                                    assert(drive_live_state(*self, root as int, Mode::Execute)
                                        == nst);
                                }
                            }
                        },
                        Instr::SetupHandler(kind, h_to) => {
                            self.frames[cur].blocks.push(
                                Block::Handler { kind, handler_to: h_to },
                            );
                            self.frames[cur].ip = f_ip + 1;
                            proof {
                                lemma_wf_frame_fields(snap, *self, cur as int);
                                if hyp {
                                    let sst = drive_live_state(snap, root as int, Mode::Execute);
                                    let nst = RunState {
                                        blocks: sst.blocks.push(
                                            Block::Handler { kind, handler_to: h_to },
                                        ),
                                        ip: sst.ip + 1,
                                        ..sst
                                    };
                                    assert(frame_run(u0, scopes0, parent0, sst, fuel_head)
                                        == frame_run(u0, scopes0, parent0, nst, fuel_head - 1));
                                    assert(drive_live_state(*self, root as int, Mode::Execute)
                                        == nst);
                                }
                            }
                        },
                        Instr::SetupFinally(c_to) => {
                            self.frames[cur].blocks.push(Block::Finally { cleanup_to: c_to });
                            self.frames[cur].ip = f_ip + 1;
                            proof {
                                lemma_wf_frame_fields(snap, *self, cur as int);
                                if hyp {
                                    let sst = drive_live_state(snap, root as int, Mode::Execute);
                                    let nst = RunState {
                                        blocks: sst.blocks.push(Block::Finally { cleanup_to: c_to }),
                                        ip: sst.ip + 1,
                                        ..sst
                                    };
                                    assert(frame_run(u0, scopes0, parent0, sst, fuel_head)
                                        == frame_run(u0, scopes0, parent0, nst, fuel_head - 1));
                                    assert(drive_live_state(*self, root as int, Mode::Execute)
                                        == nst);
                                }
                            }
                        },
                        Instr::PopBlock => {
                            if self.frames[cur].blocks.len() == 0 {
                                return Result::Err(Fault::MalformedInstruction);
                            }
                            self.frames[cur].blocks.pop();
                            self.frames[cur].ip = f_ip + 1;
                            proof {
                                lemma_wf_frame_fields(snap, *self, cur as int);
                                if hyp {
                                    let sst = drive_live_state(snap, root as int, Mode::Execute);
                                    let nst = RunState {
                                        blocks: sst.blocks.drop_last(),
                                        ip: sst.ip + 1,
                                        ..sst
                                    };
                                    assert(frame_run(u0, scopes0, parent0, sst, fuel_head)
                                        == frame_run(u0, scopes0, parent0, nst, fuel_head - 1));
                                    assert(drive_live_state(*self, root as int, Mode::Execute)
                                        == nst);
                                }
                            }
                        },
                        Instr::Break => {
                            mode = Mode::Unwinding(Unwind::Breaking);
                            proof {
                                if hyp {
                                    let sst = drive_live_state(snap, root as int, Mode::Execute);
                                    let nst = RunState {
                                        mode: RunMode::Unwind(Unwind::Breaking),
                                        ..sst
                                    };
                                    assert(frame_run(u0, scopes0, parent0, sst, fuel_head)
                                        == frame_run(u0, scopes0, parent0, nst, fuel_head - 1));
                                    assert(drive_live_state(*self, root as int, mode) == nst);
                                }
                            }
                        },
                        Instr::Continue => {
                            mode = Mode::Unwinding(Unwind::Continuing);
                            proof {
                                if hyp {
                                    let sst = drive_live_state(snap, root as int, Mode::Execute);
                                    let nst = RunState {
                                        mode: RunMode::Unwind(Unwind::Continuing),
                                        ..sst
                                    };
                                    assert(frame_run(u0, scopes0, parent0, sst, fuel_head)
                                        == frame_run(u0, scopes0, parent0, nst, fuel_head - 1));
                                    assert(drive_live_state(*self, root as int, mode) == nst);
                                }
                            }
                        },
                        Instr::Raise(k) => {
                            mode = Mode::Unwinding(
                                Unwind::Raising(RaisedError { kind: k, name: 0 }),
                            );
                            proof {
                                if hyp {
                                    let sst = drive_live_state(snap, root as int, Mode::Execute);
                                    let nst = RunState {
                                        mode: RunMode::Unwind(
                                            Unwind::Raising(RaisedError { kind: k, name: 0 }),
                                        ),
                                        ..sst
                                    };
                                    assert(frame_run(u0, scopes0, parent0, sst, fuel_head)
                                        == frame_run(u0, scopes0, parent0, nst, fuel_head - 1));
                                    assert(drive_live_state(*self, root as int, mode) == nst);
                                }
                            }
                        },
                        Instr::EndFinally => {
                            let pend = self.frames[cur].pending;
                            match pend {
                                Option::None => {
                                    self.frames[cur].ip = f_ip + 1;
                                    proof {
                                        lemma_wf_frame_fields(snap, *self, cur as int);
                                        if hyp {
                                            let sst = drive_live_state(
                                                snap,
                                                root as int,
                                                Mode::Execute,
                                            );
                                            let nst = RunState { ip: sst.ip + 1, ..sst };
                                            assert(frame_run(u0, scopes0, parent0, sst, fuel_head)
                                                == frame_run(
                                                u0,
                                                scopes0,
                                                parent0,
                                                nst,
                                                fuel_head - 1,
                                            ));
                                            assert(drive_live_state(
                                                *self,
                                                root as int,
                                                Mode::Execute,
                                            ) == nst);
                                        }
                                    }
                                },
                                Option::Some(w) => {
                                    self.frames[cur].pending = Option::None;
                                    mode = Mode::Unwinding(w);
                                    proof {
                                        lemma_wf_frame_fields(snap, *self, cur as int);
                                        if hyp {
                                            let sst = drive_live_state(
                                                snap,
                                                root as int,
                                                Mode::Execute,
                                            );
                                            let nst = RunState {
                                                pending: Option::None,
                                                mode: RunMode::Unwind(w),
                                                ..sst
                                            };
                                            assert(frame_run(u0, scopes0, parent0, sst, fuel_head)
                                                == frame_run(
                                                u0,
                                                scopes0,
                                                parent0,
                                                nst,
                                                fuel_head - 1,
                                            ));
                                            assert(drive_live_state(*self, root as int, mode)
                                                == nst);
                                        }
                                    }
                                },
                            }
                        },
                        Instr::Call(u2, argc) => {
                            proof {
                                if hyp {
                                    assert(false);
                                }
                            }
                            if u2 >= self.units.len() {
                                return Result::Err(Fault::MalformedInstruction);
                            }
                            let slen = self.frames[cur].stack.len();
                            if argc > slen {
                                return Result::Err(Fault::MalformedInstruction);
                            }
                            if argc != self.units[u2].arity {
                                mode = Mode::Unwinding(
                                    Unwind::Raising(
                                        RaisedError { kind: KIND_TYPE_MISMATCH, name: 0 },
                                    ),
                                );
                            } else {
                                let args = split_args(&mut self.frames[cur].stack, argc);
                                self.frames[cur].ip = f_ip + 1;
                                proof {
                                    lemma_wf_frame_fields(snap, *self, cur as int);
                                }
                                let ghost mid = *self;
                                let psh = self.frames[cur].scope;
                                let entries = bind_params(&args);
                                let sh2 = self.scopes.len();
                                self.scopes.push(Scope { entries, parent: Option::Some(psh) });
                                let fh2 = self.frames.len();
                                self.frames.push(
                                    Frame {
                                        unit: u2,
                                        ip: 0,
                                        stack: Vec::new(),
                                        blocks: Vec::new(),
                                        scope: sh2,
                                        caller: Option::Some(cur),
                                        state: FrameState::Running,
                                        pending: Option::None,
                                    },
                                );
                                proof {
                                    assert(frame_wf(mid, mid.frames@[cur as int]));
                                }
                                let ghost chain0 = chain@;
                                let ghost cur0 = cur;
                                chain.push(fh2);
                                cur = fh2;
                                proof {
                                    assert forall|j: int|
                                        flen0 <= j < self.frames@.len() && !in_chain(
                                            chain@,
                                            j,
                                        ) implies !(self.frames@[j].state is Running) by {
                                        lemma_in_chain_push(chain0, fh2, j);
                                        if j == cur0 as int {
                                            assert(in_chain(chain0, j));
                                        }
                                        assert(j < mid.frames@.len());
                                        assert(self.frames@[j] == snap.frames@[j]);
                                    }
                                    assert forall|i: int|
                                        0 <= i < self.scopes@.len() implies scope_parent_ok(
                                        #[trigger] self.scopes@[i],
                                        i,
                                    ) by {
                                        if i < mid.scopes@.len() {
                                            assert(scope_parent_ok(mid.scopes@[i], i));
                                        }
                                    }
                                    assert forall|j: int|
                                        0 <= j < self.frames@.len() implies frame_wf(
                                        *self,
                                        #[trigger] self.frames@[j],
                                    ) by {
                                        if j < mid.frames@.len() {
                                            assert(frame_wf(mid, mid.frames@[j]));
                                        }
                                    }
                                }
                            }
                        },
                        Instr::Return => {
                            let slen = self.frames[cur].stack.len();
                            if slen == 0 {
                                return Result::Err(Fault::MalformedInstruction);
                            }
                            let v = match self.frames[cur].stack.pop() {
                                Option::Some(v) => v,
                                Option::None => {
                                    return Result::Err(Fault::MalformedInstruction);
                                },
                            };
                            mode = Mode::Unwinding(Unwind::Returning(v));
                            proof {
                                lemma_wf_frame_fields(snap, *self, cur as int);
                                if hyp {
                                    let sst = drive_live_state(snap, root as int, Mode::Execute);
                                    let nst = RunState {
                                        stack: sst.stack.drop_last(),
                                        mode: RunMode::Unwind(
                                            Unwind::Returning(sst.stack.last()),
                                        ),
                                        ..sst
                                    };
                                    assert(v == sst.stack.last());
                                    assert(frame_run(u0, scopes0, parent0, sst, fuel_head)
                                        == frame_run(u0, scopes0, parent0, nst, fuel_head - 1));
                                    assert(drive_live_state(*self, root as int, mode) == nst);
                                }
                            }
                        },
                        Instr::Yield => {
                            let slen = self.frames[cur].stack.len();
                            if slen == 0 {
                                return Result::Err(Fault::MalformedInstruction);
                            }
                            let v = match self.frames[cur].stack.pop() {
                                Option::Some(v) => v,
                                Option::None => {
                                    return Result::Err(Fault::MalformedInstruction);
                                },
                            };
                            self.frames[cur].ip = f_ip + 1;
                            self.frames[cur].state = FrameState::Suspended;
                            proof {
                                lemma_wf_frame_fields(snap, *self, cur as int);
                            }
                            if chain.len() <= 1 {
                                proof {
                                    if hyp {
                                        let sst = drive_live_state(
                                            snap,
                                            root as int,
                                            Mode::Execute,
                                        );
                                        let st1 = RunState {
                                            stack: sst.stack.drop_last(),
                                            ip: sst.ip + 1,
                                            ..sst
                                        };
                                        assert(v == sst.stack.last());
                                        assert(frame_run(u0, scopes0, parent0, sst, fuel_head)
                                            == RunRes::Yielding(v, st1));
                                        assert(suspended_matches(*self, root as int, st1));
                                    }
                                }
                                return Result::Ok(Outcome::Yielded(v, cur));
                            }
                            let ghost chain0 = chain@;
                            let ghost cur0 = cur;
                            chain.pop();
                            let parent_fr = chain[chain.len() - 1];
                            cur = parent_fr;
                            let ghost mid = *self;
                            self.frames[cur].stack.push(v);
                            proof {
                                lemma_wf_frame_fields(mid, *self, cur as int);
                                assert(in_chain(chain@, cur as int)) by {
                                    assert(chain@[chain@.len() - 1] as int == cur as int);
                                }
                                assert forall|j: int|
                                    flen0 <= j < self.frames@.len() && !in_chain(
                                        chain@,
                                        j,
                                    ) implies !(self.frames@[j].state is Running) by {
                                    lemma_in_chain_drop(chain0, j);
                                    if j == cur0 as int {
                                        assert(self.frames@[j].state == FrameState::Suspended);
                                    } else if j == cur as int {
                                        assert(in_chain(chain@, j));
                                    } else {
                                        assert(self.frames@[j] == snap.frames@[j]);
                                    }
                                }
                            }
                        },
                    }
                },
                Mode::Unwinding(reason) => {
                    let oc = unwind_frame(&mut self.frames[cur], reason);
                    proof {
                        lemma_wf_frame_fields(snap, *self, cur as int);
                        crate::frame::lemma_unwind_leave_reason(
                            snap.frames@[cur as int].blocks@,
                            reason,
                        );
                    }
                    match oc {
                        UnwindOutcome::Stay => {
                            trace = Vec::new();
                            mode = Mode::Execute;
                            proof {
                                if hyp {
                                    let sst = drive_live_state(snap, root as int, mode_head);
                                    let res = unwind_spec(sst.blocks, reason);
                                    let nst = RunState {
                                        stack: sst.stack,
                                        locals: sst.locals,
                                        blocks: res.blocks,
                                        pending: res.pending,
                                        ip: res.target,
                                        mode: RunMode::Run,
                                    };
                                    assert(frame_run(u0, scopes0, parent0, sst, fuel_head)
                                        == frame_run(u0, scopes0, parent0, nst, fuel_head - 1));
                                    assert(drive_live_state(*self, root as int, Mode::Execute)
                                        == nst);
                                }
                            }
                        },
                        UnwindOutcome::Fault => {
                            return Result::Err(Fault::MalformedInstruction);
                        },
                        UnwindOutcome::Leave(why) => {
                            match why {
                                Unwind::Returning(v) => {
                                    let ghost mid = *self;
                                    self.frames[cur].state = FrameState::Returned(v);
                                    self.frames[cur].caller = Option::None;
                                    proof {
                                        lemma_wf_frame_fields(mid, *self, cur as int);
                                    }
                                    if chain.len() <= 1 {
                                        proof {
                                            if hyp {
                                                let sst = drive_live_state(
                                                    snap,
                                                    root as int,
                                                    mode_head,
                                                );
                                                assert(frame_run(
                                                    u0,
                                                    scopes0,
                                                    parent0,
                                                    sst,
                                                    fuel_head,
                                                ) == RunRes::Done(v, sst.locals));
                                            }
                                        }
                                        return Result::Ok(Outcome::Returned(v));
                                    }
                                    let ghost chain0 = chain@;
                                    let ghost cur0 = cur;
                                    chain.pop();
                                    let parent_fr = chain[chain.len() - 1];
                                    cur = parent_fr;
                                    let ghost mid2 = *self;
                                    self.frames[cur].stack.push(v);
                                    mode = Mode::Execute;
                                    proof {
                                        lemma_wf_frame_fields(mid2, *self, cur as int);
                                        assert(in_chain(chain@, cur as int)) by {
                                            assert(chain@[chain@.len() - 1] as int == cur as int);
                                        }
                                        assert forall|j: int|
                                            flen0 <= j < self.frames@.len() && !in_chain(
                                                chain@,
                                                j,
                                            ) implies !(self.frames@[j].state is Running) by {
                                            lemma_in_chain_drop(chain0, j);
                                            if j == cur0 as int {
                                                assert(self.frames@[j].state
                                                    == FrameState::Returned(v));
                                            } else if j == cur as int {
                                                assert(in_chain(chain@, j));
                                            } else {
                                                assert(self.frames@[j] == snap.frames@[j]);
                                            }
                                        }
                                    }
                                },
                                Unwind::Raising(e) => {
                                    let ghost mid = *self;
                                    self.frames[cur].state = FrameState::Raised(e);
                                    self.frames[cur].caller = Option::None;
                                    trace.push(cur);
                                    proof {
                                        lemma_wf_frame_fields(mid, *self, cur as int);
                                    }
                                    if chain.len() <= 1 {
                                        proof {
                                            if hyp {
                                                let sst = drive_live_state(
                                                    snap,
                                                    root as int,
                                                    mode_head,
                                                );
                                                assert(frame_run(
                                                    u0,
                                                    scopes0,
                                                    parent0,
                                                    sst,
                                                    fuel_head,
                                                ) == RunRes::Raised(e, sst.locals));
                                                assert(trace@ =~= seq![root]);
                                            }
                                        }
                                        return Result::Ok(Outcome::Raised(e, trace));
                                    }
                                    proof {
                                        assert(chain@[chain@.len() - 2] < chain@[chain@.len()
                                            - 1]);
                                    }
                                    let ghost chain0 = chain@;
                                    let ghost cur0 = cur;
                                    chain.pop();
                                    let parent_fr = chain[chain.len() - 1];
                                    cur = parent_fr;
                                    mode = Mode::Unwinding(Unwind::Raising(e));
                                    proof {
                                        assert forall|j: int|
                                            flen0 <= j < self.frames@.len() && !in_chain(
                                                chain@,
                                                j,
                                            ) implies !(self.frames@[j].state is Running) by {
                                            lemma_in_chain_drop(chain0, j);
                                            if j == cur0 as int {
                                                assert(self.frames@[j].state
                                                    == FrameState::Raised(e));
                                            } else {
                                                assert(self.frames@[j] == snap.frames@[j]);
                                            }
                                        }
                                    }
                                },
                                _ => {
                                    return Result::Err(Fault::MalformedInstruction);
                                },
                            }
                        },
                    }
                },
            }
        }
    }
}

impl Interp {
    /// Begins a new activation of `unit`: a fresh local scope binds
    /// argument `i` to parameter name id `i` with `enclosing` as its
    /// captured parent, a fresh frame is constructed over it, and the
    /// dispatch engine drives the frame for at most `budget` steps. The
    /// frame handle is the one the outcome and the reflective layer see;
    /// frames come into being only here — never by direct construction.
    ///
    /// An argument count differing from the unit's arity surfaces as a
    /// type-mismatch error at the boundary, before any frame exists. On a
    /// modeled unit — any unit without call or widened-store instructions —
    /// the outcome and the final state are exactly what the execution
    /// model prescribes, loops, handler blocks and finally bodies included.
    pub fn call(
        &mut self,
        unit: usize,
        args: Vec<Value>,
        enclosing: Option<usize>,
        budget: usize,
    ) -> (r: Result<Outcome, Fault>)
        requires
            old(self).wf(),
            (unit as int) < old(self).units@.len(),
            match enclosing {
                Option::Some(p) => (p as int) < old(self).scopes@.len(),
                Option::None => true,
            },
        ensures
            final(self).wf(),
            final(self).units@ == old(self).units@,
            args@.len() != old(self).units@[unit as int].arity ==> *final(self) == *old(self) && (
            r matches Result::Ok(Outcome::Raised(e, tr)) && e == (RaisedError {
                kind: KIND_TYPE_MISMATCH,
                name: 0,
            }) && tr@.len() == 0),
            args@.len() == old(self).units@[unit as int].arity ==> ({
                let fh = old(self).frames@.len() as int;
                let sh = old(self).scopes@.len() as int;
                &&& final(self).frames@.len() > fh
                &&& final(self).scopes@.len() > sh
                &&& (forall|j: int|
                    0 <= j < fh ==> final(self).frames@[j] == old(self).frames@[j])
                &&& (forall|j: int|
                    0 <= j < sh ==> final(self).scopes@[j].parent == old(self).scopes@[j].parent)
                &&& final(self).frames@[fh].unit == unit
                &&& final(self).frames@[fh].scope as int == sh
                &&& final(self).frames@[fh].caller is None
                &&& final(self).scopes@[sh].parent == enclosing
                &&& match r {
                    Result::Ok(Outcome::Returned(v)) => final(self).frames@[fh].state
                        == FrameState::Returned(v),
                    Result::Ok(Outcome::Yielded(v, h)) => h as int == fh
                        && final(self).frames@[fh].state == FrameState::Suspended,
                    Result::Ok(Outcome::Raised(e, tr)) => final(self).frames@[fh].state
                        == FrameState::Raised(e) && tr@.len() >= 1 && tr@.last() as int == fh && (forall|k: int|
                        0 <= k < tr@.len() ==> (#[trigger] tr@[k] as int) < final(self).frames@.len() && final(self).frames@[tr@[k] as int].state
                            == FrameState::Raised(e)) && (forall|k1: int, k2: int|
                        #![trigger tr@[k1], tr@[k2]]
                        0 <= k1 < k2 < tr@.len() ==> tr@[k1] > tr@[k2]),
                    Result::Err(f) => f == Fault::MalformedInstruction || f == Fault::StepLimit,
                }
                &&& (r == Result::<Outcome, Fault>::Err(Fault::StepLimit)
                    ==> final(self).frames@[fh].state == FrameState::Running)
                &&& (r is Ok ==> (forall|j: int|
                    fh < j < final(self).frames@.len() ==> !(#[trigger] final(self).frames@[j].state is Running)))
                &&& (modeled_unit(old(self).units@[unit as int]) ==> modeled_call_outcome(
                    *old(self),
                    unit as int,
                    args@,
                    enclosing,
                    *final(self),
                    fh,
                    budget as int,
                    r,
                ))
            }),
    {
        let arity = self.units[unit].arity;
        if args.len() != arity {
            return Result::Ok(
                Outcome::Raised(RaisedError { kind: KIND_TYPE_MISMATCH, name: 0 }, Vec::new()),
            );
        }
        let ghost i0 = *self;
        let entries = bind_params(&args);
        let sh = self.scopes.len();
        self.scopes.push(Scope { entries, parent: enclosing });
        let fh = self.frames.len();
        self.frames.push(
            Frame {
                unit,
                ip: 0,
                stack: Vec::new(),
                blocks: Vec::new(),
                scope: sh,
                caller: Option::None,
                state: FrameState::Created,
                pending: Option::None,
            },
        );
        proof {
            assert forall|i: int| 0 <= i < self.scopes@.len() implies scope_parent_ok(
                #[trigger] self.scopes@[i],
                i,
            ) by {
                if i < i0.scopes@.len() {
                    assert(scope_parent_ok(i0.scopes@[i], i));
                }
            }
            assert forall|j: int| 0 <= j < self.frames@.len() implies frame_wf(
                *self,
                #[trigger] self.frames@[j],
            ) by {
                if j < i0.frames@.len() {
                    assert(frame_wf(i0, i0.frames@[j]));
                }
            }
        }
        let ghost pre = *self;
        self.frames[fh].state = FrameState::Running;
        proof {
            lemma_wf_frame_fields(pre, *self, fh as int);
        }
        let ghost mid = *self;
        let r = self.drive(fh, budget);
        proof {
            let u = i0.units@[unit as int];
            if modeled_unit(u) {
                let st0 = RunState {
                    stack: Seq::empty(),
                    locals: bind_args(args@),
                    blocks: Seq::empty(),
                    pending: Option::None,
                    ip: 0,
                    mode: RunMode::Run,
                };
                assert(frame_run_state(mid, fh as int).stack =~= st0.stack);
                assert(frame_run_state(mid, fh as int).blocks =~= st0.blocks);
                assert(frame_run_state(mid, fh as int) == st0);
                match enclosing {
                    Option::Some(p) => {
                        assert forall|n: usize|
                            lookup_chain(mid.scopes@, p as int, n) == lookup_chain(
                                i0.scopes@,
                                p as int,
                                n,
                            ) by {
                            lemma_lookup_chain_prefix(mid.scopes@, i0.scopes@, p as int, n);
                        }
                    },
                    Option::None => {},
                }
                crate::model::lemma_frame_run_agree(
                    u,
                    mid.scopes@,
                    i0.scopes@,
                    enclosing,
                    st0,
                    budget as int,
                );
            }
        }
        r
    }

    /// Continues a suspended frame from its saved position, delivering the
    /// injected value (or `Nil`) — or the injected error — at the yield
    /// point, and drives it for at most `budget` steps. Valid only on a
    /// `Suspended` frame: a handle that `call` never produced fails with
    /// the construction-misuse fault, and a frame already `Returned`,
    /// `Raised` or otherwise not suspended fails with the
    /// exhausted-activation fault, both immediately, without entering
    /// dispatch and without touching any state.
    ///
    /// An injected error is delivered through the frame's own block stack:
    /// its handlers may catch it, its finally bodies run; with no blocks,
    /// the frame ends `Raised` with exactly that error. On a modeled unit
    /// the outcome and the final state are exactly what the execution
    /// model prescribes, whatever blocks were active at the suspension.
    pub fn resume(&mut self, fh: usize, injected: Injected, budget: usize) -> (r: Result<
        Outcome,
        Fault,
    >)
        requires
            old(self).wf(),
        ensures
            final(self).wf(),
            final(self).units@ == old(self).units@,
            (fh as int) >= old(self).frames@.len() ==> r == Result::<Outcome, Fault>::Err(
                Fault::ConstructionMisuse,
            ) && *final(self) == *old(self),
            (fh as int) < old(self).frames@.len() && !(old(self).frames@[fh as int].state
                is Suspended) ==> r == Result::<Outcome, Fault>::Err(Fault::ExhaustedActivation)
                && *final(self) == *old(self),
            (fh as int) < old(self).frames@.len() && old(self).frames@[fh as int].state
                is Suspended ==> ({
                &&& final(self).frames@.len() >= old(self).frames@.len()
                &&& final(self).scopes@.len() >= old(self).scopes@.len()
                &&& (forall|j: int|
                    0 <= j < old(self).frames@.len() && j != fh ==> final(self).frames@[j] == old(
                        self,
                    ).frames@[j])
                &&& (forall|j: int|
                    0 <= j < old(self).scopes@.len() ==> final(self).scopes@[j].parent == old(
                        self,
                    ).scopes@[j].parent)
                &&& final(self).frames@[fh as int].unit == old(self).frames@[fh as int].unit
                &&& final(self).frames@[fh as int].scope == old(self).frames@[fh as int].scope
                &&& match r {
                    Result::Ok(Outcome::Returned(v)) => final(self).frames@[fh as int].state
                        == FrameState::Returned(v),
                    Result::Ok(Outcome::Yielded(v, h)) => h == fh
                        && final(self).frames@[fh as int].state == FrameState::Suspended,
                    Result::Ok(Outcome::Raised(e, tr)) => final(self).frames@[fh as int].state
                        == FrameState::Raised(e) && tr@.len() >= 1 && tr@.last() == fh && (forall|k: int|
                        0 <= k < tr@.len() ==> (#[trigger] tr@[k] as int) < final(self).frames@.len() && final(self).frames@[tr@[k] as int].state
                            == FrameState::Raised(e)) && (forall|k1: int, k2: int|
                        #![trigger tr@[k1], tr@[k2]]
                        0 <= k1 < k2 < tr@.len() ==> tr@[k1] > tr@[k2]),
                    Result::Err(f) => f == Fault::MalformedInstruction || f == Fault::StepLimit,
                }
                &&& (r == Result::<Outcome, Fault>::Err(Fault::StepLimit)
                    ==> final(self).frames@[fh as int].state == FrameState::Running)
                &&& (r is Ok ==> (forall|j: int|
                    old(self).frames@.len() <= j < final(self).frames@.len() ==> !(
                    #[trigger] final(self).frames@[j].state is Running)))
                &&& (modeled_unit(old(self).units@[old(self).frames@[fh as int].unit as int])
                    && !(injected is Error) ==> modeled_resume_outcome(
                    *old(self),
                    fh as int,
                    injected_value(injected),
                    *final(self),
                    budget as int,
                    r,
                ))
                &&& (injected matches Injected::Error(k) ==> (modeled_unit(
                    old(self).units@[old(self).frames@[fh as int].unit as int],
                ) ==> modeled_inject_outcome(
                    *old(self),
                    fh as int,
                    k,
                    *final(self),
                    budget as int,
                    r,
                )))
                &&& (injected matches Injected::Error(k) ==> (old(
                    self,
                ).frames@[fh as int].blocks@.len() == 0 ==> (r matches Result::Ok(
                    Outcome::Raised(e, tr),
                ) && e == (RaisedError { kind: k, name: 0 }) && tr@.len() == 1 && tr@[0] == fh)
                    && final(self).frames@[fh as int].state == FrameState::Raised(
                    (RaisedError { kind: k, name: 0 }),
                )))
            }),
    {
        if fh >= self.frames.len() {
            return Result::Err(Fault::ConstructionMisuse);
        }
        let suspended = match self.frames[fh].state {
            FrameState::Suspended => true,
            _ => false,
        };
        if !suspended {
            return Result::Err(Fault::ExhaustedActivation);
        }
        let ghost i0 = *self;
        self.frames[fh].state = FrameState::Running;
        proof {
            lemma_wf_frame_fields(i0, *self, fh as int);
        }
        match injected {
            Injected::Nothing => {
                let ghost pre = *self;
                self.frames[fh].stack.push(Value::Nil);
                proof {
                    lemma_wf_frame_fields(pre, *self, fh as int);
                }
                let ghost mid = *self;
                let r = self.drive(fh, budget);
                proof {
                    let u = i0.units@[i0.frames@[fh as int].unit as int];
                    if modeled_unit(u) {
                        assert(frame_run_state(mid, fh as int).stack
                            =~= i0.frames@[fh as int].stack@.push(Value::Nil));
                    }
                }
                r
            },
            Injected::Value(v) => {
                let ghost pre = *self;
                self.frames[fh].stack.push(v);
                proof {
                    lemma_wf_frame_fields(pre, *self, fh as int);
                }
                let ghost mid = *self;
                let r = self.drive(fh, budget);
                proof {
                    let u = i0.units@[i0.frames@[fh as int].unit as int];
                    if modeled_unit(u) {
                        assert(frame_run_state(mid, fh as int).stack
                            =~= i0.frames@[fh as int].stack@.push(v));
                    }
                }
                r
            },
            Injected::Error(k) => {
                let e = RaisedError { kind: k, name: 0 };
                let ghost pre = *self;
                let oc = unwind_frame(&mut self.frames[fh], Unwind::Raising(e));
                proof {
                    lemma_wf_frame_fields(pre, *self, fh as int);
                    crate::frame::lemma_unwind_leave_reason(
                        i0.frames@[fh as int].blocks@,
                        Unwind::Raising(e),
                    );
                }
                match oc {
                    UnwindOutcome::Stay => {
                        let ghost mid = *self;
                        let r = self.drive(fh, budget);
                        proof {
                            let u = i0.units@[i0.frames@[fh as int].unit as int];
                            if modeled_unit(u) {
                                let res = unwind_spec(
                                    i0.frames@[fh as int].blocks@,
                                    Unwind::Raising(e),
                                );
                                let st = RunState {
                                    stack: i0.frames@[fh as int].stack@,
                                    locals: i0.scopes@[i0.frames@[fh as int].scope as int].entries@,
                                    blocks: i0.frames@[fh as int].blocks@,
                                    pending: Option::None,
                                    ip: i0.frames@[fh as int].ip as int,
                                    mode: RunMode::Unwind(Unwind::Raising(e)),
                                };
                                let nst = RunState {
                                    stack: st.stack,
                                    locals: st.locals,
                                    blocks: res.blocks,
                                    pending: res.pending,
                                    ip: res.target,
                                    mode: RunMode::Run,
                                };
                                assert(frame_run(
                                    u,
                                    i0.scopes@,
                                    i0.scopes@[i0.frames@[fh as int].scope as int].parent,
                                    st,
                                    budget as int + 1,
                                ) == frame_run(
                                    u,
                                    i0.scopes@,
                                    i0.scopes@[i0.frames@[fh as int].scope as int].parent,
                                    nst,
                                    budget as int,
                                ));
                                assert(frame_run_state(mid, fh as int) == nst);
                            }
                        }
                        r
                    },
                    UnwindOutcome::Leave(why) => {
                        match why {
                            Unwind::Raising(e2) => {
                                let ghost pre2 = *self;
                                self.frames[fh].state = FrameState::Raised(e2);
                                self.frames[fh].caller = Option::None;
                                proof {
                                    lemma_wf_frame_fields(pre2, *self, fh as int);
                                }
                                let mut tr: Vec<usize> = Vec::new();
                                tr.push(fh);
                                proof {
                                    assert(tr@ =~= seq![fh]);
                                }
                                Result::Ok(Outcome::Raised(e2, tr))
                            },
                            _ => Result::Err(Fault::MalformedInstruction),
                        }
                    },
                    UnwindOutcome::Fault => Result::Err(Fault::MalformedInstruction),
                }
            },
        }
    }

    /// Abandons a suspended frame instead of resuming it: any pending
    /// finally blocks on its block stack still execute — cleanup holds even
    /// for never-resumed activations — by delivering an abandonment error
    /// at the suspension point; with no blocks pending, the frame simply
    /// ends `Raised` with that error. On a modeled unit, the cleanup run
    /// and its effects are exactly what the execution model prescribes.
    pub fn abandon(&mut self, fh: usize, budget: usize) -> (r: Result<Outcome, Fault>)
        requires
            old(self).wf(),
        ensures
            final(self).wf(),
            final(self).units@ == old(self).units@,
            (fh as int) >= old(self).frames@.len() ==> r == Result::<Outcome, Fault>::Err(
                Fault::ConstructionMisuse,
            ) && *final(self) == *old(self),
            (fh as int) < old(self).frames@.len() && !(old(self).frames@[fh as int].state
                is Suspended) ==> r == Result::<Outcome, Fault>::Err(Fault::ExhaustedActivation)
                && *final(self) == *old(self),
            (fh as int) < old(self).frames@.len() && old(self).frames@[fh as int].state
                is Suspended ==> ({
                &&& (forall|j: int|
                    0 <= j < old(self).frames@.len() && j != fh ==> final(self).frames@[j] == old(
                        self,
                    ).frames@[j])
                &&& match r {
                    Result::Ok(Outcome::Returned(v)) => final(self).frames@[fh as int].state
                        == FrameState::Returned(v),
                    Result::Ok(Outcome::Yielded(v, h)) => h == fh
                        && final(self).frames@[fh as int].state == FrameState::Suspended,
                    Result::Ok(Outcome::Raised(e, tr)) => final(self).frames@[fh as int].state
                        == FrameState::Raised(e) && tr@.len() >= 1 && tr@.last() == fh && (forall|k: int|
                        0 <= k < tr@.len() ==> (#[trigger] tr@[k] as int) < final(self).frames@.len() && final(self).frames@[tr@[k] as int].state
                            == FrameState::Raised(e)) && (forall|k1: int, k2: int|
                        #![trigger tr@[k1], tr@[k2]]
                        0 <= k1 < k2 < tr@.len() ==> tr@[k1] > tr@[k2]),
                    Result::Err(f) => f == Fault::MalformedInstruction || f == Fault::StepLimit,
                }
                &&& (r == Result::<Outcome, Fault>::Err(Fault::StepLimit)
                    ==> final(self).frames@[fh as int].state == FrameState::Running)
                &&& (r is Ok ==> (forall|j: int|
                    old(self).frames@.len() <= j < final(self).frames@.len() ==> !(
                    #[trigger] final(self).frames@[j].state is Running)))
                &&& (modeled_unit(old(self).units@[old(self).frames@[fh as int].unit as int])
                    ==> modeled_inject_outcome(
                    *old(self),
                    fh as int,
                    KIND_ABANDONED,
                    *final(self),
                    budget as int,
                    r,
                ))
                &&& (old(self).frames@[fh as int].blocks@.len() == 0 ==> (r matches Result::Ok(
                    Outcome::Raised(e, tr),
                ) && e == (RaisedError { kind: KIND_ABANDONED, name: 0 }) && tr@.len() == 1
                    && tr@[0] == fh))
            }),
    {
        self.resume(fh, Injected::Error(KIND_ABANDONED), budget)
    }
}

} // verus!
