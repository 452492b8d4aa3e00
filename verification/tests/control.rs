use framecore::interp::{Injected, Interp, Outcome};
use framecore::units::{CompiledUnit, Instr};
use framecore::value::Value;

const BUDGET: usize = 10_000;

fn unit(consts: Vec<Value>, instrs: Vec<Instr>, arity: usize) -> CompiledUnit {
    CompiledUnit { consts, names: Vec::new(), free_names: Vec::new(), instrs, arity }
}

#[test]
fn handler_catches_matching_kind() {
    let mut vm = Interp::new();
    let u = vm.add_unit(unit(
        vec![Value::Int(42)],
        vec![
            Instr::SetupHandler(9, 3),
            Instr::Raise(9),
            Instr::Jump(0),
            Instr::LoadConst(0),
            Instr::Return,
        ],
        0,
    ));
    let r = vm.call(u, Vec::new(), None, BUDGET);
    assert_eq!(r, Ok(Outcome::Returned(Value::Int(42))));
}

#[test]
fn catch_all_handler_catches_any_kind() {
    let mut vm = Interp::new();
    let u = vm.add_unit(unit(
        vec![Value::Int(7)],
        vec![
            Instr::SetupHandler(framecore::units::KIND_ANY, 3),
            Instr::LoadName(5),
            Instr::Jump(0),
            Instr::LoadConst(0),
            Instr::Return,
        ],
        0,
    ));
    let r = vm.call(u, Vec::new(), None, BUDGET);
    assert_eq!(r, Ok(Outcome::Returned(Value::Int(7))));
}

#[test]
fn innermost_matching_handler_wins() {
    let mut vm = Interp::new();
    let u = vm.add_unit(unit(
        vec![Value::Int(2), Value::Int(1)],
        vec![
            Instr::SetupHandler(9, 7),
            Instr::SetupHandler(9, 4),
            Instr::Raise(9),
            Instr::Jump(0),
            Instr::LoadConst(0),
            Instr::Return,
            Instr::Jump(0),
            Instr::LoadConst(1),
            Instr::Return,
        ],
        0,
    ));
    let r = vm.call(u, Vec::new(), None, BUDGET);
    assert_eq!(r, Ok(Outcome::Returned(Value::Int(2))));
}

#[test]
fn non_matching_handler_is_skipped() {
    let mut vm = Interp::new();
    let u = vm.add_unit(unit(
        vec![Value::Int(1)],
        vec![Instr::SetupHandler(8, 3), Instr::Raise(9), Instr::Jump(0), Instr::LoadConst(0), Instr::Return],
        0,
    ));
    let r = vm.call(u, Vec::new(), None, BUDGET);
    match r {
        Ok(Outcome::Raised(e, _)) => assert_eq!(e.kind, 9),
        other => panic!("unexpected outcome {:?}", other),
    }
}

// The finally bodies below count their executions in the module scope:
// x (name id 0) starts absent and each pass runs `x = x + 1`-style code,
// so `x == 1` afterwards shows the body ran exactly once.

#[test]
fn finally_runs_once_on_return() {
    let mut vm = Interp::new();
    let sh = vm.new_scope(None);
    vm.scope_set(sh, 0, Value::Int(0));
    let u = vm.add_unit(unit(
        vec![Value::Int(10), Value::Int(1)],
        vec![
            Instr::SetupFinally(3),
            Instr::LoadConst(0),
            Instr::Return,
            Instr::LoadName(0),
            Instr::LoadConst(1),
            Instr::Add,
            Instr::StoreModule(0),
            Instr::EndFinally,
        ],
        0,
    ));
    let r = vm.call(u, Vec::new(), Some(sh), BUDGET);
    assert_eq!(r, Ok(Outcome::Returned(Value::Int(10))));
    assert_eq!(vm.scope_get(sh, 0), Some(Value::Int(1)));
}

#[test]
fn finally_runs_once_on_raise() {
    let mut vm = Interp::new();
    let sh = vm.new_scope(None);
    vm.scope_set(sh, 0, Value::Int(0));
    let u = vm.add_unit(unit(
        vec![Value::Int(1)],
        vec![
            Instr::SetupFinally(2),
            Instr::Raise(9),
            Instr::LoadName(0),
            Instr::LoadConst(0),
            Instr::Add,
            Instr::StoreModule(0),
            Instr::EndFinally,
        ],
        0,
    ));
    let r = vm.call(u, Vec::new(), Some(sh), BUDGET);
    match r {
        Ok(Outcome::Raised(e, _)) => assert_eq!(e.kind, 9),
        other => panic!("unexpected outcome {:?}", other),
    }
    assert_eq!(vm.scope_get(sh, 0), Some(Value::Int(1)));
}

#[test]
fn finally_runs_once_on_break() {
    let mut vm = Interp::new();
    let sh = vm.new_scope(None);
    vm.scope_set(sh, 0, Value::Int(0));
    let u = vm.add_unit(unit(
        vec![Value::Int(1), Value::Int(5)],
        vec![
            Instr::SetupLoop(9, 1),
            Instr::SetupFinally(4),
            Instr::Break,
            Instr::Jump(0),
            Instr::LoadName(0),
            Instr::LoadConst(0),
            Instr::Add,
            Instr::StoreModule(0),
            Instr::EndFinally,
            Instr::LoadConst(1),
            Instr::Return,
        ],
        0,
    ));
    let r = vm.call(u, Vec::new(), Some(sh), BUDGET);
    assert_eq!(r, Ok(Outcome::Returned(Value::Int(5))));
    assert_eq!(vm.scope_get(sh, 0), Some(Value::Int(1)));
}

#[test]
fn nested_finally_bodies_run_inner_then_outer() {
    let mut vm = Interp::new();
    let sh = vm.new_scope(None);
    let u = vm.add_unit(unit(
        vec![Value::Int(1)],
        vec![
            Instr::SetupFinally(8),
            Instr::SetupFinally(4),
            Instr::Raise(9),
            Instr::Jump(0),
            Instr::LoadConst(0),
            Instr::StoreModule(0),
            Instr::EndFinally,
            Instr::Jump(0),
            Instr::LoadName(0),
            Instr::LoadConst(0),
            Instr::Add,
            Instr::StoreModule(1),
            Instr::EndFinally,
        ],
        0,
    ));
    let r = vm.call(u, Vec::new(), Some(sh), BUDGET);
    match r {
        Ok(Outcome::Raised(e, _)) => assert_eq!(e.kind, 9),
        other => panic!("unexpected outcome {:?}", other),
    }
    // the inner body wrote x = 1; the outer body read it and wrote y = x + 1
    assert_eq!(vm.scope_get(sh, 0), Some(Value::Int(1)));
    assert_eq!(vm.scope_get(sh, 1), Some(Value::Int(2)));
}

#[test]
fn control_transfer_in_finally_overrides_propagation() {
    let mut vm = Interp::new();
    let u = vm.add_unit(unit(
        vec![Value::Int(99)],
        vec![
            Instr::SetupFinally(2),
            Instr::Raise(9),
            Instr::LoadConst(0),
            Instr::Return,
        ],
        0,
    ));
    let r = vm.call(u, Vec::new(), None, BUDGET);
    assert_eq!(r, Ok(Outcome::Returned(Value::Int(99))));
}

#[test]
fn loop_continue_and_break() {
    let mut vm = Interp::new();
    let sh = vm.new_scope(None);
    vm.scope_set(sh, 0, Value::Bool(true));
    let u = vm.add_unit(unit(
        vec![Value::Bool(false), Value::Int(9)],
        vec![
            Instr::SetupLoop(8, 1),
            Instr::LoadName(0),
            Instr::JumpIfFalse(6),
            Instr::LoadConst(0),
            Instr::StoreName(0),
            Instr::Continue,
            Instr::Break,
            Instr::Jump(0),
            Instr::LoadConst(1),
            Instr::Return,
        ],
        0,
    ));
    let r = vm.call(u, Vec::new(), Some(sh), BUDGET);
    assert_eq!(r, Ok(Outcome::Returned(Value::Int(9))));
}

#[test]
fn call_instruction_drives_a_child_frame() {
    let mut vm = Interp::new();
    // child(a) = a + 1
    let child = vm.add_unit(unit(
        vec![Value::Int(1)],
        vec![Instr::LoadName(0), Instr::LoadConst(0), Instr::Add, Instr::Return],
        1,
    ));
    let parent = vm.add_unit(unit(
        vec![Value::Int(41)],
        vec![Instr::LoadConst(0), Instr::Call(child, 1), Instr::Return],
        0,
    ));
    let r = vm.call(parent, Vec::new(), None, BUDGET);
    assert_eq!(r, Ok(Outcome::Returned(Value::Int(42))));
}

#[test]
fn child_error_is_caught_by_parent_handler() {
    let mut vm = Interp::new();
    let child = vm.add_unit(unit(vec![], vec![Instr::Raise(9)], 0));
    let parent = vm.add_unit(unit(
        vec![Value::Int(5)],
        vec![
            Instr::SetupHandler(9, 4),
            Instr::Call(child, 0),
            Instr::Return,
            Instr::Jump(0),
            Instr::LoadConst(0),
            Instr::Return,
        ],
        0,
    ));
    let r = vm.call(parent, Vec::new(), None, BUDGET);
    assert_eq!(r, Ok(Outcome::Returned(Value::Int(5))));
}

#[test]
fn unhandled_error_reports_frames_innermost_first() {
    let mut vm = Interp::new();
    let child = vm.add_unit(unit(vec![], vec![Instr::Raise(9)], 0));
    let parent = vm.add_unit(unit(
        vec![],
        vec![Instr::Call(child, 0), Instr::Return],
        0,
    ));
    let r = vm.call(parent, Vec::new(), None, BUDGET);
    match r {
        Ok(Outcome::Raised(e, trace)) => {
            assert_eq!(e.kind, 9);
            // the parent frame is handle 0, the child frame handle 1
            assert_eq!(trace, vec![1, 0]);
        },
        other => panic!("unexpected outcome {:?}", other),
    }
}

#[test]
fn nested_yield_hands_the_value_to_the_calling_frame() {
    let mut vm = Interp::new();
    // child yields 7 to its consumer (the caller), which returns it
    let child = vm.add_unit(unit(
        vec![Value::Int(7)],
        vec![Instr::LoadConst(0), Instr::Yield, Instr::Return],
        0,
    ));
    let parent = vm.add_unit(unit(
        vec![],
        vec![Instr::Call(child, 0), Instr::Return],
        0,
    ));
    let r = vm.call(parent, Vec::new(), None, BUDGET);
    assert_eq!(r, Ok(Outcome::Returned(Value::Int(7))));
}

#[test]
fn injected_error_is_caught_by_the_frames_own_handler() {
    let mut vm = Interp::new();
    let u = vm.add_unit(unit(
        vec![Value::Int(1), Value::Int(0), Value::Int(99)],
        vec![
            Instr::SetupHandler(7, 6),
            Instr::LoadConst(0),
            Instr::Yield,
            Instr::PopTop,
            Instr::LoadConst(1),
            Instr::Return,
            Instr::LoadConst(2),
            Instr::Return,
        ],
        0,
    ));
    let fh = match vm.call(u, Vec::new(), None, BUDGET) {
        Ok(Outcome::Yielded(Value::Int(1), fh)) => fh,
        other => panic!("unexpected outcome {:?}", other),
    };
    let r = vm.resume(fh, Injected::Error(7), BUDGET);
    assert_eq!(r, Ok(Outcome::Returned(Value::Int(99))));
}
