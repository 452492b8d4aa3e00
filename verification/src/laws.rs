use vstd::prelude::*;
use crate::value::Value;
use crate::scope::{find_entry, store_entry, lookup_chain, lemma_find_after_store};
use crate::frame::{Block, Unwind, UnwindOutcome, unwind_spec, block_stops};
use crate::interp::{Interp, Outcome, Fault, modeled_call_outcome};
use crate::interp::frame_wf;
use crate::model::{
    straight_plain_unit, frame_run, RunState, RunMode, RunRes,
    lemma_straight_plain_never_yields, bind_args,
};

verus! {

/// A compiled unit without call, yield or raise instructions, driven by
/// `call`, executes to completion: it never suspends, and whenever its
/// model run finishes with a return, the outcome is `Returned` with the
/// final operand-stack value. The premise `modeled_call_outcome` is
/// exactly what `call`'s contract gives.
pub proof fn lemma_plain_unit_runs_to_completion(
    i0: Interp,
    unit: int,
    args: Seq<Value>,
    enclosing: Option<usize>,
    i1: Interp,
    fh: int,
    steps: int,
    r: Result<Outcome, Fault>,
)
    requires
        0 <= unit < i0.units@.len(),
        straight_plain_unit(i0.units@[unit]),
        modeled_call_outcome(i0, unit, args, enclosing, i1, fh, steps, r),
    ensures
        ({
            let st0 = RunState {
                stack: Seq::empty(),
                locals: bind_args(args),
                blocks: Seq::empty(),
                pending: Option::None,
                ip: 0,
                mode: RunMode::Run,
            };
            &&& !(frame_run(i0.units@[unit], i0.scopes@, enclosing, st0, steps) is Yielding)
            &&& match frame_run(i0.units@[unit], i0.scopes@, enclosing, st0, steps) {
                RunRes::Done(v, l) => r == Result::<Outcome, Fault>::Ok(Outcome::Returned(v)),
                _ => true,
            }
        }),
{
    let st0 = RunState {
        stack: Seq::empty(),
        locals: bind_args(args),
        blocks: Seq::empty(),
        pending: Option::None,
        ip: 0,
        mode: RunMode::Run,
    };
    lemma_straight_plain_never_yields(i0.units@[unit], i0.scopes@, enclosing, st0, steps);
}

/// The cleanup offset of a finally block.
pub open spec fn finally_target(b: Block) -> int {
    match b {
        Block::Finally { cleanup_to } => cleanup_to as int,
        _ => 0,
    }
}

/// A finally body executes exactly once per unwind pass, whatever caused
/// the pass — a return, a break or continue, or a raised error. The pass
/// reaches the topmost finally block that no nearer entry intercepts,
/// jumps to its cleanup body, parks the in-flight reason for `EndFinally`,
/// and removes the block from the stack — so the same body cannot run a
/// second time in the same pass.
pub proof fn lemma_finally_once_per_unwind(blocks: Seq<Block>, reason: Unwind, k: int)
    requires
        0 <= k < blocks.len(),
        blocks[k] is Finally,
        forall|j: int| k < j < blocks.len() ==> !block_stops(#[trigger] blocks[j], reason),
    ensures
        unwind_spec(blocks, reason).outcome == UnwindOutcome::Stay,
        unwind_spec(blocks, reason).blocks == blocks.take(k),
        unwind_spec(blocks, reason).target == finally_target(blocks[k]),
        unwind_spec(blocks, reason).pending == Option::Some(reason),
    decreases blocks.len(),
{
    if k == blocks.len() - 1 {
        assert(blocks.drop_last() =~= blocks.take(k));
    } else {
        let top = blocks.last();
        assert(!block_stops(top, reason));
        lemma_finally_once_per_unwind(blocks.drop_last(), reason, k);
        assert(blocks.drop_last().take(k) =~= blocks.take(k));
    }
}

/// Share-by-reference law: scopes captured by several frames are one
/// object, addressed by one handle. After a write of `name := v` performed
/// through one frame's scope — exactly the transformation `scope_set` and
/// the dispatch engine's store instruction effect — resolution through any
/// other frame holding the same scope handle yields the written value at
/// once; no resume or other synchronisation is needed, and every other
/// name resolves exactly as before.
pub proof fn lemma_shared_scope_write_visible(
    i0: Interp,
    i1: Interp,
    f1: int,
    f2: int,
    name: usize,
    v: Value,
)
    requires
        i0.wf(),
        0 <= f1 < i0.frames@.len(),
        0 <= f2 < i0.frames@.len(),
        i0.frames@[f1].scope == i0.frames@[f2].scope,
        i1.frames@ == i0.frames@,
        i1.scopes@.len() == i0.scopes@.len(),
        forall|j: int|
            0 <= j < i0.scopes@.len() && j != i0.frames@[f1].scope as int ==> i1.scopes@[j]
                == i0.scopes@[j],
        i1.scopes@[i0.frames@[f1].scope as int].entries@ == store_entry(
            i0.scopes@[i0.frames@[f1].scope as int].entries@,
            name,
            v,
        ),
        i1.scopes@[i0.frames@[f1].scope as int].parent == i0.scopes@[i0.frames@[f1].scope as int].parent,
    ensures
        lookup_chain(i1.scopes@, i1.frames@[f2].scope as int, name) == Option::Some(v),
        forall|other: usize|
            other != name ==> lookup_chain(i1.scopes@, i1.frames@[f2].scope as int, other)
                == lookup_chain(i0.scopes@, i0.frames@[f2].scope as int, other),
{
    let sh = i0.frames@[f1].scope as int;
    assert(frame_wf(i0, i0.frames@[f1]));
    lemma_find_after_store(i0.scopes@[sh].entries@, name, v);
    assert(find_entry(i1.scopes@[sh].entries@, name) == Option::Some(v));
    assert forall|other: usize| other != name implies lookup_chain(i1.scopes@, sh, other)
        == lookup_chain(i0.scopes@, sh, other) by {
        crate::scope::lemma_find_after_store_other(i0.scopes@[sh].entries@, name, v, other);
        match i0.scopes@[sh].parent {
            Option::Some(p) => {
                if (p as int) < sh {
                    crate::scope::lemma_lookup_chain_prefix(i1.scopes@, i0.scopes@, p as int, other);
                }
            },
            Option::None => {},
        }
    }
}

/// The reflective locals snapshot reads the live scope: a name bound in
/// the snapshot resolves, through the frame's own scope chain, to the very
/// same value — the snapshot is the frame's live bindings at the moment of
/// inspection, not a diverging copy.
pub proof fn lemma_locals_snapshot_live(i: Interp, fh: int, name: usize, v: Value)
    requires
        i.wf(),
        0 <= fh < i.frames@.len(),
        find_entry(i.scopes@[i.frames@[fh].scope as int].entries@, name) == Option::Some(v),
    ensures
        lookup_chain(i.scopes@, i.frames@[fh].scope as int, name) == Option::Some(v),
{
    assert(frame_wf(i, i.frames@[fh]));
}

} // verus!
