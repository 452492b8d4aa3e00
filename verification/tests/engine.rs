use framecore::interp::{Fault, Injected, Interp, Outcome};
use framecore::frame::{FrameState, RaisedError};
use framecore::units::{CompiledUnit, Instr};
use framecore::value::Value;

const BUDGET: usize = 10_000;

fn unit(consts: Vec<Value>, instrs: Vec<Instr>, arity: usize) -> CompiledUnit {
    CompiledUnit { consts, names: Vec::new(), free_names: Vec::new(), instrs, arity }
}

#[test]
fn straight_return_constant() {
    let mut vm = Interp::new();
    let u = vm.add_unit(unit(
        vec![Value::Int(7)],
        vec![Instr::LoadConst(0), Instr::Return],
        0,
    ));
    let r = vm.call(u, Vec::new(), None, BUDGET);
    assert_eq!(r, Ok(Outcome::Returned(Value::Int(7))));
    assert_eq!(vm.frame_state(0), Some(FrameState::Returned(Value::Int(7))));
}

#[test]
fn straight_store_load_add() {
    // x = 1; return x + 2
    let mut vm = Interp::new();
    let u = vm.add_unit(unit(
        vec![Value::Int(1), Value::Int(2)],
        vec![
            Instr::LoadConst(0),
            Instr::StoreName(0),
            Instr::LoadName(0),
            Instr::LoadConst(1),
            Instr::Add,
            Instr::Return,
        ],
        0,
    ));
    let r = vm.call(u, Vec::new(), None, BUDGET);
    assert_eq!(r, Ok(Outcome::Returned(Value::Int(3))));
}

#[test]
fn arguments_bind_to_parameter_ids() {
    // return arg0 - arg1
    let mut vm = Interp::new();
    let u = vm.add_unit(unit(
        vec![],
        vec![Instr::LoadName(0), Instr::LoadName(1), Instr::Sub, Instr::Return],
        2,
    ));
    let r = vm.call(u, vec![Value::Int(10), Value::Int(4)], None, BUDGET);
    assert_eq!(r, Ok(Outcome::Returned(Value::Int(6))));
}

#[test]
fn suspend_resume_scenario() {
    // x = 1; yield x; x = x + 1; return x
    let mut vm = Interp::new();
    let u = vm.add_unit(unit(
        vec![Value::Int(1)],
        vec![
            Instr::LoadConst(0),
            Instr::StoreName(0),
            Instr::LoadName(0),
            Instr::Yield,
            Instr::PopTop,
            Instr::LoadName(0),
            Instr::LoadConst(0),
            Instr::Add,
            Instr::StoreName(0),
            Instr::LoadName(0),
            Instr::Return,
        ],
        0,
    ));
    let r = vm.call(u, Vec::new(), None, BUDGET);
    let fh = match r {
        Ok(Outcome::Yielded(v, fh)) => {
            assert_eq!(v, Value::Int(1));
            fh
        },
        other => panic!("expected a suspension, got {:?}", other),
    };
    assert_eq!(vm.frame_state(fh), Some(FrameState::Suspended));
    let r2 = vm.resume(fh, Injected::Nothing, BUDGET);
    assert_eq!(r2, Ok(Outcome::Returned(Value::Int(2))));
    assert_eq!(vm.frame_state(fh), Some(FrameState::Returned(Value::Int(2))));
    let r3 = vm.resume(fh, Injected::Nothing, BUDGET);
    assert_eq!(r3, Err(Fault::ExhaustedActivation));
}

#[test]
fn yields_in_program_order() {
    let mut vm = Interp::new();
    let u = vm.add_unit(unit(
        vec![Value::Int(1), Value::Int(2), Value::Int(3), Value::Int(0)],
        vec![
            Instr::LoadConst(0),
            Instr::Yield,
            Instr::PopTop,
            Instr::LoadConst(1),
            Instr::Yield,
            Instr::PopTop,
            Instr::LoadConst(2),
            Instr::Yield,
            Instr::PopTop,
            Instr::LoadConst(3),
            Instr::Return,
        ],
        0,
    ));
    let mut seen = Vec::new();
    let mut r = vm.call(u, Vec::new(), None, BUDGET);
    loop {
        match r {
            Ok(Outcome::Yielded(Value::Int(n), fh)) => {
                seen.push(n);
                r = vm.resume(fh, Injected::Nothing, BUDGET);
            },
            Ok(Outcome::Returned(Value::Int(0))) => break,
            other => panic!("unexpected outcome {:?}", other),
        }
        if seen.len() > 10 {
            panic!("too many yields");
        }
    }
    assert_eq!(seen, vec![1, 2, 3]);
}

#[test]
fn resume_injects_value_at_yield_point() {
    // return (yield 1)
    let mut vm = Interp::new();
    let u = vm.add_unit(unit(
        vec![Value::Int(1)],
        vec![Instr::LoadConst(0), Instr::Yield, Instr::Return],
        0,
    ));
    let fh = match vm.call(u, Vec::new(), None, BUDGET) {
        Ok(Outcome::Yielded(Value::Int(1), fh)) => fh,
        other => panic!("unexpected outcome {:?}", other),
    };
    let r = vm.resume(fh, Injected::Value(Value::Int(5)), BUDGET);
    assert_eq!(r, Ok(Outcome::Returned(Value::Int(5))));
}

#[test]
fn resume_with_nothing_delivers_nil() {
    // return (yield 1)
    let mut vm = Interp::new();
    let u = vm.add_unit(unit(
        vec![Value::Int(1)],
        vec![Instr::LoadConst(0), Instr::Yield, Instr::Return],
        0,
    ));
    let fh = match vm.call(u, Vec::new(), None, BUDGET) {
        Ok(Outcome::Yielded(_, fh)) => fh,
        other => panic!("unexpected outcome {:?}", other),
    };
    let r = vm.resume(fh, Injected::Nothing, BUDGET);
    assert_eq!(r, Ok(Outcome::Returned(Value::Nil)));
}

#[test]
fn unresolved_name_raises_name_resolution_error() {
    let mut vm = Interp::new();
    let u = vm.add_unit(unit(vec![], vec![Instr::LoadName(5), Instr::Return], 0));
    let r = vm.call(u, Vec::new(), None, BUDGET);
    match r {
        Ok(Outcome::Raised(e, trace)) => {
            assert_eq!(e, RaisedError { kind: framecore::units::KIND_NAME_RESOLUTION, name: 5 });
            assert_eq!(trace, vec![0]);
        },
        other => panic!("unexpected outcome {:?}", other),
    }
    assert_eq!(
        vm.frame_state(0),
        Some(FrameState::Raised(RaisedError {
            kind: framecore::units::KIND_NAME_RESOLUTION,
            name: 5
        }))
    );
}

#[test]
fn add_on_wrong_kind_raises_type_mismatch() {
    let mut vm = Interp::new();
    let u = vm.add_unit(unit(
        vec![Value::Bool(true), Value::Int(1)],
        vec![Instr::LoadConst(0), Instr::LoadConst(1), Instr::Add, Instr::Return],
        0,
    ));
    let r = vm.call(u, Vec::new(), None, BUDGET);
    match r {
        Ok(Outcome::Raised(e, _)) => {
            assert_eq!(e.kind, framecore::units::KIND_TYPE_MISMATCH);
        },
        other => panic!("unexpected outcome {:?}", other),
    }
}

#[test]
fn integer_overflow_raises_type_mismatch() {
    let mut vm = Interp::new();
    let u = vm.add_unit(unit(
        vec![Value::Int(i64::MAX), Value::Int(1)],
        vec![Instr::LoadConst(0), Instr::LoadConst(1), Instr::Add, Instr::Return],
        0,
    ));
    let r = vm.call(u, Vec::new(), None, BUDGET);
    match r {
        Ok(Outcome::Raised(e, _)) => {
            assert_eq!(e.kind, framecore::units::KIND_TYPE_MISMATCH);
        },
        other => panic!("unexpected outcome {:?}", other),
    }
}

#[test]
fn arity_mismatch_surfaces_at_the_boundary() {
    let mut vm = Interp::new();
    let u = vm.add_unit(unit(vec![], vec![Instr::LoadName(0), Instr::Return], 1));
    let r = vm.call(u, Vec::new(), None, BUDGET);
    match r {
        Ok(Outcome::Raised(e, trace)) => {
            assert_eq!(e.kind, framecore::units::KIND_TYPE_MISMATCH);
            assert!(trace.is_empty());
        },
        other => panic!("unexpected outcome {:?}", other),
    }
    // no frame was constructed
    assert_eq!(vm.frame_state(0), None);
}

#[test]
fn constant_index_out_of_range_is_malformed() {
    let mut vm = Interp::new();
    let u = vm.add_unit(unit(vec![], vec![Instr::LoadConst(5), Instr::Return], 0));
    let r = vm.call(u, Vec::new(), None, BUDGET);
    assert_eq!(r, Err(Fault::MalformedInstruction));
}

#[test]
fn running_past_the_stream_end_is_malformed() {
    let mut vm = Interp::new();
    let u = vm.add_unit(unit(vec![Value::Int(1)], vec![Instr::LoadConst(0)], 0));
    let r = vm.call(u, Vec::new(), None, BUDGET);
    assert_eq!(r, Err(Fault::MalformedInstruction));
}

#[test]
fn break_outside_a_loop_is_malformed() {
    let mut vm = Interp::new();
    let u = vm.add_unit(unit(vec![], vec![Instr::Break], 0));
    let r = vm.call(u, Vec::new(), None, BUDGET);
    assert_eq!(r, Err(Fault::MalformedInstruction));
}

#[test]
fn spinning_unit_exhausts_the_step_budget() {
    let mut vm = Interp::new();
    let u = vm.add_unit(unit(vec![], vec![Instr::Jump(0)], 0));
    let r = vm.call(u, Vec::new(), None, 10);
    assert_eq!(r, Err(Fault::StepLimit));
    // the chain is left mid-flight: the frame stays Running, unresumable
    assert_eq!(vm.frame_state(0), Some(FrameState::Running));
    assert_eq!(vm.resume(0, Injected::Nothing, 10), Err(Fault::ExhaustedActivation));
}

#[test]
fn resume_on_unknown_handle_is_construction_misuse() {
    let mut vm = Interp::new();
    let r = vm.resume(99, Injected::Nothing, BUDGET);
    assert_eq!(r, Err(Fault::ConstructionMisuse));
}

#[test]
fn conditional_branch_takes_the_false_edge() {
    let mut vm = Interp::new();
    let u = vm.add_unit(unit(
        vec![Value::Bool(false), Value::Int(1), Value::Int(2)],
        vec![
            Instr::LoadConst(0),
            Instr::JumpIfFalse(4),
            Instr::LoadConst(1),
            Instr::Return,
            Instr::LoadConst(2),
            Instr::Return,
        ],
        0,
    ));
    let r = vm.call(u, Vec::new(), None, BUDGET);
    assert_eq!(r, Ok(Outcome::Returned(Value::Int(2))));
}

#[test]
fn conditional_branch_takes_the_true_edge() {
    let mut vm = Interp::new();
    let u = vm.add_unit(unit(
        vec![Value::Bool(true), Value::Int(1), Value::Int(2)],
        vec![
            Instr::LoadConst(0),
            Instr::JumpIfFalse(4),
            Instr::LoadConst(1),
            Instr::Return,
            Instr::LoadConst(2),
            Instr::Return,
        ],
        0,
    ));
    let r = vm.call(u, Vec::new(), None, BUDGET);
    assert_eq!(r, Ok(Outcome::Returned(Value::Int(1))));
}

#[test]
fn lookup_walks_the_chain_outward() {
    let mut vm = Interp::new();
    let builtin = vm.new_scope(None);
    vm.scope_set(builtin, 0, Value::Int(1));
    let module = vm.new_scope(Some(builtin));
    let u = vm.add_unit(unit(vec![], vec![Instr::LoadName(0), Instr::Return], 0));
    // absent locally and in the module scope: found in the builtin scope
    let r = vm.call(u, Vec::new(), Some(module), BUDGET);
    assert_eq!(r, Ok(Outcome::Returned(Value::Int(1))));
    // once the module scope binds it, the nearer binding wins
    vm.scope_set(module, 0, Value::Int(2));
    let r2 = vm.call(u, Vec::new(), Some(module), BUDGET);
    assert_eq!(r2, Ok(Outcome::Returned(Value::Int(2))));
}

#[test]
fn local_store_shadows_without_touching_the_chain() {
    let mut vm = Interp::new();
    let module = vm.new_scope(None);
    vm.scope_set(module, 0, Value::Int(2));
    // x = 50; return x — writes target the local scope
    let u = vm.add_unit(unit(
        vec![Value::Int(50)],
        vec![Instr::LoadConst(0), Instr::StoreName(0), Instr::LoadName(0), Instr::Return],
        0,
    ));
    let r = vm.call(u, Vec::new(), Some(module), BUDGET);
    assert_eq!(r, Ok(Outcome::Returned(Value::Int(50))));
    // the enclosing binding is untouched
    assert_eq!(vm.scope_get(module, 0), Some(Value::Int(2)));
}

#[test]
fn enclosing_store_targets_the_nearest_binding_scope() {
    let mut vm = Interp::new();
    let builtin = vm.new_scope(None);
    vm.scope_set(builtin, 0, Value::Int(1));
    let module = vm.new_scope(Some(builtin));
    vm.scope_set(module, 0, Value::Int(2));
    // x = 50 into the nearest enclosing scope that binds x; return x
    let u = vm.add_unit(unit(
        vec![Value::Int(50)],
        vec![
            Instr::LoadConst(0),
            Instr::StoreEnclosing(0),
            Instr::LoadName(0),
            Instr::Return,
        ],
        0,
    ));
    let r = vm.call(u, Vec::new(), Some(module), BUDGET);
    assert_eq!(r, Ok(Outcome::Returned(Value::Int(50))));
    // the module scope (nearest binder) was rewritten; the builtin one kept
    assert_eq!(vm.scope_get(module, 0), Some(Value::Int(50)));
    assert_eq!(vm.scope_get(builtin, 0), Some(Value::Int(1)));
}

#[test]
fn enclosing_store_without_a_binding_raises_name_resolution() {
    let mut vm = Interp::new();
    let module = vm.new_scope(None);
    let u = vm.add_unit(unit(
        vec![Value::Int(50)],
        vec![Instr::LoadConst(0), Instr::StoreEnclosing(7), Instr::Return],
        0,
    ));
    let r = vm.call(u, Vec::new(), Some(module), BUDGET);
    match r {
        Ok(Outcome::Raised(e, _)) => {
            assert_eq!(e, RaisedError { kind: framecore::units::KIND_NAME_RESOLUTION, name: 7 });
        },
        other => panic!("unexpected outcome {:?}", other),
    }
}
