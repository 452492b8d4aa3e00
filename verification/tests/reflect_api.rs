use framecore::interp::{Fault, Injected, Interp, Outcome};
use framecore::frame::FrameState;
use framecore::reflect::{
    frame_fcode, frame_flocals, frame_new, frame_repr, get_value, init, Context, FrameMethod,
};
use framecore::units::{CompiledUnit, Instr, KIND_ABANDONED};
use framecore::value::Value;

const BUDGET: usize = 10_000;

fn unit(consts: Vec<Value>, instrs: Vec<Instr>, arity: usize) -> CompiledUnit {
    CompiledUnit { consts, names: Vec::new(), free_names: Vec::new(), instrs, arity }
}

#[test]
fn init_registers_the_frame_surface() {
    let mut ctx = Context::new();
    init(&mut ctx);
    assert_eq!(ctx.frame_attrs.len(), 4);
    assert_eq!(ctx.frame_attrs[0].0, "__new__");
    assert_eq!(ctx.frame_attrs[0].1, FrameMethod::New);
    assert_eq!(ctx.frame_attrs[1].0, "__repr__");
    assert_eq!(ctx.frame_attrs[1].1, FrameMethod::Repr);
    assert_eq!(ctx.frame_attrs[2].0, "f_locals");
    assert_eq!(ctx.frame_attrs[2].1, FrameMethod::Locals);
    assert_eq!(ctx.frame_attrs[3].0, "f_code");
    assert_eq!(ctx.frame_attrs[3].1, FrameMethod::Code);
}

#[test]
fn direct_frame_construction_always_fails() {
    assert_eq!(frame_new(), Err(Fault::ConstructionMisuse));
}

#[test]
fn get_value_rejects_non_frame_payloads() {
    // a wrong-kind argument is a type mismatch, not a construction misuse
    assert_eq!(get_value(&Value::Int(3)), Err(Fault::TypeMismatch));
    assert_eq!(get_value(&Value::Nil), Err(Fault::TypeMismatch));
    assert_eq!(get_value(&Value::FrameRef(2)), Ok(2));
}

#[test]
fn repr_of_a_live_frame() {
    let mut vm = Interp::new();
    let u = vm.add_unit(unit(
        vec![Value::Int(1)],
        vec![Instr::LoadConst(0), Instr::Yield, Instr::Return],
        0,
    ));
    let fh = match vm.call(u, Vec::new(), None, BUDGET) {
        Ok(Outcome::Yielded(_, fh)) => fh,
        other => panic!("unexpected outcome {:?}", other),
    };
    let s = frame_repr(&vm, &Value::FrameRef(fh)).unwrap();
    assert_eq!(s, "<frame object at .. >");
    // wrong-kind argument: type mismatch; fabricated handle: construction misuse
    assert_eq!(frame_repr(&vm, &Value::Int(1)), Err(Fault::TypeMismatch));
    assert_eq!(frame_repr(&vm, &Value::FrameRef(99)), Err(Fault::ConstructionMisuse));
}

#[test]
fn reflection_round_trip() {
    // x = 1; yield x; return x — suspended with x bound locally
    let mut vm = Interp::new();
    let u = vm.add_unit(unit(
        vec![Value::Int(1)],
        vec![
            Instr::LoadConst(0),
            Instr::StoreName(0),
            Instr::LoadName(0),
            Instr::Yield,
            Instr::PopTop,
            Instr::LoadName(0),
            Instr::Return,
        ],
        0,
    ));
    let fh = match vm.call(u, Vec::new(), None, BUDGET) {
        Ok(Outcome::Yielded(Value::Int(1), fh)) => fh,
        other => panic!("unexpected outcome {:?}", other),
    };
    let obj = Value::FrameRef(fh);
    // the frame exposes the identical compiled-unit handle it was made with
    assert_eq!(frame_fcode(&vm, &obj), Ok(u));
    // and a locals snapshot equal to the live scope contents
    let snapshot = frame_flocals(&vm, &obj).unwrap();
    assert_eq!(snapshot, vec![(0, Value::Int(1))]);
    // the snapshot agrees with live resolution through the engine
    let live = vm.frame_state(fh);
    assert_eq!(live, Some(FrameState::Suspended));
}

#[test]
fn locals_snapshot_tracks_the_live_scope() {
    // two activations of one unit over one shared scope: a write made by
    // one is seen in the other's locals chain and in later snapshots
    let mut vm = Interp::new();
    let sh = vm.new_scope(None);
    let writer = vm.add_unit(unit(
        vec![Value::Int(7), Value::Int(0)],
        vec![Instr::LoadConst(0), Instr::StoreModule(0), Instr::LoadConst(1), Instr::Return],
        0,
    ));
    let reader = vm.add_unit(unit(
        vec![Value::Int(0)],
        vec![Instr::LoadConst(0), Instr::Yield, Instr::PopTop, Instr::LoadName(0), Instr::Return],
        0,
    ));
    // suspend the reader before the write happens
    let fh = match vm.call(reader, Vec::new(), Some(sh), BUDGET) {
        Ok(Outcome::Yielded(_, fh)) => fh,
        other => panic!("unexpected outcome {:?}", other),
    };
    assert_eq!(vm.scope_get(sh, 0), None);
    // the writer publishes x = 7 into the shared scope
    let r = vm.call(writer, Vec::new(), Some(sh), BUDGET);
    assert_eq!(r, Ok(Outcome::Returned(Value::Int(0))));
    // visible immediately, before the reader resumes
    assert_eq!(vm.scope_get(sh, 0), Some(Value::Int(7)));
    // and visible from within the reader after it resumes
    let r2 = vm.resume(fh, Injected::Nothing, BUDGET);
    assert_eq!(r2, Ok(Outcome::Returned(Value::Int(7))));
}

#[test]
fn abandoned_frame_still_runs_its_finally() {
    let mut vm = Interp::new();
    let sh = vm.new_scope(None);
    let u = vm.add_unit(unit(
        vec![Value::Int(1), Value::Int(2)],
        vec![
            Instr::SetupFinally(6),
            Instr::LoadConst(0),
            Instr::Yield,
            Instr::PopTop,
            Instr::LoadConst(1),
            Instr::Return,
            Instr::LoadConst(0),
            Instr::StoreModule(0),
            Instr::EndFinally,
        ],
        0,
    ));
    let fh = match vm.call(u, Vec::new(), Some(sh), BUDGET) {
        Ok(Outcome::Yielded(Value::Int(1), fh)) => fh,
        other => panic!("unexpected outcome {:?}", other),
    };
    assert_eq!(vm.scope_get(sh, 0), None);
    let r = vm.abandon(fh, BUDGET);
    match r {
        Ok(Outcome::Raised(e, trace)) => {
            assert_eq!(e.kind, KIND_ABANDONED);
            assert_eq!(trace, vec![fh]);
        },
        other => panic!("unexpected outcome {:?}", other),
    }
    // the cleanup body ran before the frame was released
    assert_eq!(vm.scope_get(sh, 0), Some(Value::Int(1)));
    // the frame is spent: it cannot be resumed again
    assert_eq!(vm.resume(fh, Injected::Nothing, BUDGET), Err(Fault::ExhaustedActivation));
}

#[test]
fn abandon_without_blocks_just_closes_the_frame() {
    let mut vm = Interp::new();
    let u = vm.add_unit(unit(
        vec![Value::Int(1)],
        vec![Instr::LoadConst(0), Instr::Yield, Instr::Return],
        0,
    ));
    let fh = match vm.call(u, Vec::new(), None, BUDGET) {
        Ok(Outcome::Yielded(_, fh)) => fh,
        other => panic!("unexpected outcome {:?}", other),
    };
    let r = vm.abandon(fh, BUDGET);
    match r {
        Ok(Outcome::Raised(e, trace)) => {
            assert_eq!(e.kind, KIND_ABANDONED);
            assert_eq!(trace, vec![fh]);
        },
        other => panic!("unexpected outcome {:?}", other),
    }
}

#[test]
fn name_table_gives_diagnostic_text() {
    let mut vm = Interp::new();
    let u = vm.add_unit(CompiledUnit {
        consts: vec![],
        names: vec!["x".to_owned(), "y".to_owned()],
        free_names: vec![1],
        instrs: vec![Instr::LoadName(0), Instr::Return],
        arity: 1,
    });
    let r = vm.call(u, vec![Value::Int(3)], None, BUDGET);
    assert_eq!(r, Ok(Outcome::Returned(Value::Int(3))));
    // reading the unit's tables back through the arena
    assert_eq!(vm.units[u].name_text(0), Some(&"x".to_owned()));
    assert_eq!(vm.units[u].name_text(5), None);
}

#[test]
fn finished_frame_exposes_its_final_locals() {
    // x = 1; yield x; x = x + 1; return x — after completion the snapshot
    // shows the final binding x = 2
    let mut vm = Interp::new();
    let u = vm.add_unit(unit(
        vec![Value::Int(1)],
        vec![
            Instr::LoadConst(0),
            Instr::StoreName(0),
            Instr::LoadName(0),
            Instr::Yield,
            Instr::PopTop,
            Instr::LoadName(0),
            Instr::LoadConst(0),
            Instr::Add,
            Instr::StoreName(0),
            Instr::LoadName(0),
            Instr::Return,
        ],
        0,
    ));
    let fh = match vm.call(u, Vec::new(), None, BUDGET) {
        Ok(Outcome::Yielded(Value::Int(1), fh)) => fh,
        other => panic!("unexpected outcome {:?}", other),
    };
    assert_eq!(vm.resume(fh, Injected::Nothing, BUDGET), Ok(Outcome::Returned(Value::Int(2))));
    let snapshot = frame_flocals(&vm, &Value::FrameRef(fh)).unwrap();
    assert_eq!(snapshot, vec![(0, Value::Int(2))]);
}

#[test]
fn wrong_kind_argument_is_a_type_mismatch() {
    let mut vm = Interp::new();
    let u = vm.add_unit(unit(
        vec![Value::Int(1)],
        vec![Instr::LoadConst(0), Instr::Return],
        0,
    ));
    let r = vm.call(u, Vec::new(), None, BUDGET);
    assert_eq!(r, Ok(Outcome::Returned(Value::Int(1))));
    // an argument that is not a frame reference: type mismatch
    assert_eq!(frame_flocals(&vm, &Value::Bool(true)), Err(Fault::TypeMismatch));
    assert_eq!(frame_fcode(&vm, &Value::Nil), Err(Fault::TypeMismatch));
    // a frame reference that call never produced: construction misuse
    assert_eq!(frame_flocals(&vm, &Value::FrameRef(9)), Err(Fault::ConstructionMisuse));
    assert_eq!(frame_fcode(&vm, &Value::FrameRef(9)), Err(Fault::ConstructionMisuse));
}
