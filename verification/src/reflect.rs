use vstd::prelude::*;
use crate::value::Value;
use crate::interp::{Interp, Fault};

verus! {

/// One method of the frame type's reflective surface.
#[derive(Clone, Copy, PartialEq, Eq, Structural, Debug)]
pub enum FrameMethod {
    /// Direct construction: always refused.
    New,
    /// Textual diagnostic representation.
    Repr,
    /// Snapshot of the frame's local bindings.
    Locals,
    /// The owning compiled-unit handle.
    Code,
}

/// The embedding context's registry of the frame type's attributes: each
/// entry binds an attribute name to the method serving it; later entries
/// shadow earlier ones.
pub struct Context {
    /// Attribute table of the frame type.
    pub frame_attrs: Vec<(String, FrameMethod)>,
}

impl Context {
    /// An empty context: no attributes registered yet.
    pub fn new() -> (r: Context)
        ensures
            r.frame_attrs@.len() == 0,
    {
        Context { frame_attrs: Vec::new() }
    }

    /// Registers `method` under `name` on the frame type.
    pub fn set_attr(&mut self, name: &str, method: FrameMethod)
        ensures
            final(self).frame_attrs@.len() == old(self).frame_attrs@.len() + 1,
            forall|j: int|
                0 <= j < old(self).frame_attrs@.len() ==> final(self).frame_attrs@[j] == old(
                    self,
                ).frame_attrs@[j],
            final(self).frame_attrs@.last().0@ == name@,
            final(self).frame_attrs@.last().1 == method,
    {
        self.frame_attrs.push((name.to_owned(), method));
    }
}

/// Populates a context with the frame type's reflective surface: direct
/// construction, the textual representation, the locals snapshot and the
/// code reference, under their attribute names.
pub fn init(context: &mut Context)
    ensures
        final(context).frame_attrs@.len() == old(context).frame_attrs@.len() + 4,
        forall|j: int|
            0 <= j < old(context).frame_attrs@.len() ==> final(context).frame_attrs@[j] == old(
                context,
            ).frame_attrs@[j],
        final(context).frame_attrs@[old(context).frame_attrs@.len() as int].0@ == "__new__"@,
        final(context).frame_attrs@[old(context).frame_attrs@.len() as int].1 == FrameMethod::New,
        final(context).frame_attrs@[old(context).frame_attrs@.len() as int + 1].0@ == "__repr__"@,
        final(context).frame_attrs@[old(context).frame_attrs@.len() as int + 1].1 == FrameMethod::Repr,
        final(context).frame_attrs@[old(context).frame_attrs@.len() as int + 2].0@ == "f_locals"@,
        final(context).frame_attrs@[old(context).frame_attrs@.len() as int + 2].1 == FrameMethod::Locals,
        final(context).frame_attrs@[old(context).frame_attrs@.len() as int + 3].0@ == "f_code"@,
        final(context).frame_attrs@[old(context).frame_attrs@.len() as int + 3].1 == FrameMethod::Code,
{
    context.set_attr("__new__", FrameMethod::New);
    context.set_attr("__repr__", FrameMethod::Repr);
    context.set_attr("f_locals", FrameMethod::Locals);
    context.set_attr("f_code", FrameMethod::Code);
}

/// The frame handle inside a runtime value. A value of any other kind is
/// an argument of the wrong type for the frame surface — a type mismatch,
/// the checked counterpart of an accessor that would otherwise abort on an
/// unexpected payload.
pub fn get_value(obj: &Value) -> (r: Result<usize, Fault>)
    ensures
        match *obj {
            Value::FrameRef(h) => r == Result::<usize, Fault>::Ok(h),
            _ => r == Result::<usize, Fault>::Err(Fault::TypeMismatch),
        },
{
    match *obj {
        Value::FrameRef(h) => Result::Ok(h),
        _ => Result::Err(Fault::TypeMismatch),
    }
}

/// Direct construction of a frame, bypassing `call`: always refused, with
/// the construction-misuse fault, and no usable frame handle comes back.
pub fn frame_new() -> (r: Result<usize, Fault>)
    ensures
        r == Result::<usize, Fault>::Err(Fault::ConstructionMisuse),
{
    Result::Err(Fault::ConstructionMisuse)
}

/// Whether a value is a frame reference that `call` produced in `interp`.
pub open spec fn is_live_frame(interp: Interp, obj: Value) -> bool {
    match obj {
        Value::FrameRef(h) => (h as int) < interp.frames@.len(),
        _ => false,
    }
}

/// The textual diagnostic representation of a frame. A non-frame argument
/// is a type mismatch; a frame reference that `call` never produced is a
/// construction misuse.
pub fn frame_repr(interp: &Interp, obj: &Value) -> (r: Result<String, Fault>)
    ensures
        is_live_frame(*interp, *obj) ==> (r matches Result::Ok(s) && s@
            == "<frame object at .. >"@),
        match *obj {
            Value::FrameRef(h) => (h as int) >= interp.frames@.len() ==> r == Result::<
                String,
                Fault,
            >::Err(Fault::ConstructionMisuse),
            _ => r == Result::<String, Fault>::Err(Fault::TypeMismatch),
        },
{
    let h = match get_value(obj) {
        Result::Ok(h) => h,
        Result::Err(f) => {
            return Result::Err(f);
        },
    };
    if h >= interp.frames.len() {
        return Result::Err(Fault::ConstructionMisuse);
    }
    Result::Ok("<frame object at .. >".to_owned())
}

/// A read-only snapshot of a frame's local bindings, name id by name id:
/// exactly the live contents of the frame's scope at the moment of
/// inspection. A non-frame argument is a type mismatch; a frame reference
/// that `call` never produced is a construction misuse.
pub fn frame_flocals(interp: &Interp, obj: &Value) -> (r: Result<Vec<(usize, Value)>, Fault>)
    requires
        interp.wf(),
    ensures
        is_live_frame(*interp, *obj) ==> (r matches Result::Ok(snapshot) && snapshot@
            == interp.scopes@[interp.frames@[obj->FrameRef_0 as int].scope as int].entries@),
        match *obj {
            Value::FrameRef(h) => (h as int) >= interp.frames@.len() ==> r == Result::<
                Vec<(usize, Value)>,
                Fault,
            >::Err(Fault::ConstructionMisuse),
            _ => r == Result::<Vec<(usize, Value)>, Fault>::Err(Fault::TypeMismatch),
        },
{
    let h = match get_value(obj) {
        Result::Ok(h) => h,
        Result::Err(f) => {
            return Result::Err(f);
        },
    };
    if h >= interp.frames.len() {
        return Result::Err(Fault::ConstructionMisuse);
    }
    proof {
        assert(crate::interp::frame_wf(*interp, interp.frames@[h as int]));
    }
    let sh = interp.frames[h].scope;
    let n = interp.scopes[sh].entries.len();
    let mut out: Vec<(usize, Value)> = Vec::new();
    let mut i: usize = 0;
    while i < n
        invariant
            interp.wf(),
            (h as int) < interp.frames@.len(),
            sh == interp.frames@[h as int].scope,
            (sh as int) < interp.scopes@.len(),
            n == interp.scopes@[sh as int].entries@.len(),
            i <= n,
            out@ =~= interp.scopes@[sh as int].entries@.take(i as int),
        decreases n - i,
    {
        out.push(interp.scopes[sh].entries[i]);
        i = i + 1;
    }
    proof {
        assert(out@ =~= interp.scopes@[sh as int].entries@);
    }
    Result::Ok(out)
}

/// The compiled-unit handle a frame was constructed over: the identical
/// unit reference that `call` received. A non-frame argument is a type
/// mismatch; a frame reference that `call` never produced is a
/// construction misuse.
pub fn frame_fcode(interp: &Interp, obj: &Value) -> (r: Result<usize, Fault>)
    ensures
        is_live_frame(*interp, *obj) ==> r == Result::<usize, Fault>::Ok(
            interp.frames@[obj->FrameRef_0 as int].unit,
        ),
        match *obj {
            Value::FrameRef(h) => (h as int) >= interp.frames@.len() ==> r == Result::<
                usize,
                Fault,
            >::Err(Fault::ConstructionMisuse),
            _ => r == Result::<usize, Fault>::Err(Fault::TypeMismatch),
        },
{
    let h = match get_value(obj) {
        Result::Ok(h) => h,
        Result::Err(f) => {
            return Result::Err(f);
        },
    };
    if h >= interp.frames.len() {
        return Result::Err(Fault::ConstructionMisuse);
    }
    Result::Ok(interp.frames[h].unit)
}

} // verus!
