//! The binding generator.
//!
//! One description in, one call out: the generator resolves the
//! descriptor's selector (supplying the runtime's terminator exactly
//! once), acquires the receiver the descriptor prescribes — a class
//! looked up by name for a constructor, the given instance handle for a
//! method — assembles the frame whose shape is synthesized from the
//! same description, and invokes the one dispatch entry point with it.
//! Nothing about the call's shape is ever written twice.

use crate::descriptor::{
    args_match, lemma_generated_call_shape, MethodDescriptor, ReceiverKind,
};
use crate::model::{
    class_handle, find_class, lemma_find_class_bounds, obj_at, resolve_model, step, FrameModel, Obj,
    Val,
};
use crate::runtime::{dispatch, register_selector, vals, CallFrame, Runtime, Value};
use crate::{runtime::class_lookup, ObjcObject};
use vstd::prelude::*;

verus! {

/// The generated call of an instance-method descriptor: selector
/// resolution, then one dispatch of (receiver, selector, arguments).
/// The result is exactly what the model's `step` answers for that frame
/// on the runtime as it stands after resolution.
pub fn invoke_method(
    rt: &mut Runtime,
    d: &MethodDescriptor,
    receiver: ObjcObject,
    args: Vec<Value>,
) -> (r: Value)
    requires
        d.wf(),
        d.receiver is Instance,
        args_match(vals(args@), d.params@),
    ensures
        ({
            let (m1, sel) = resolve_model(old(rt)@, d.selector_name@);
            let f = FrameModel { receiver, selector: sel, args: vals(args@) };
            final(rt)@ == step(m1, f).0 && r@ == step(m1, f).1
        }),
{
    let sel = register_selector(rt, d.selector_name.as_slice());
    proof {
        lemma_generated_call_shape(d.params@, receiver, sel, vals(args@));
        assert(rt@ == resolve_model(old(rt)@, d.selector_name@).0);
    }
    let frame = CallFrame { receiver, selector: sel, args };
    dispatch(rt, &frame)
}

/// The generated call of a constructor descriptor: selector resolution,
/// class lookup by the descriptor's class name, then one dispatch with
/// the class object as receiver.  The answered handle is wrapped; a
/// class that does not exist makes the receiver null, and the dispatch
/// of the frame then answers null rather than failing.
pub fn invoke_constructor(rt: &mut Runtime, d: &MethodDescriptor, args: Vec<Value>) -> (r:
    ObjcObject)
    requires
        d.wf(),
        d.receiver is Class,
        args_match(vals(args@), d.params@),
    ensures
        ({
            let (m1, sel) = resolve_model(old(rt)@, d.selector_name@);
            let recv = class_handle(m1.objects, d.receiver->Class_0@);
            let f = FrameModel { receiver: recv, selector: sel, args: vals(args@) };
            final(rt)@ == step(m1, f).0 && Val::Obj(r) == step(m1, f).1
        }),
{
    let sel = register_selector(rt, d.selector_name.as_slice());
    proof {
        assert(rt@ == resolve_model(old(rt)@, d.selector_name@).0);
    }
    let recv = match &d.receiver {
        ReceiverKind::Class(cn) => class_lookup(rt, cn.as_slice()),
        ReceiverKind::Instance => {
            proof {
                assert(false);
            }
            ObjcObject { addr: 0 }
        },
    };
    proof {
        vstd::std_specs::vec::axiom_spec_len(&rt.objects);
        lemma_generated_call_shape(d.params@, recv, sel, vals(args@));
        lemma_find_class_bounds(rt@.objects, d.receiver->Class_0@);
        let m1 = resolve_model(old(rt)@, d.selector_name@).0;
        let f = FrameModel { receiver: recv, selector: sel, args: vals(args@) };
        let cname = d.receiver->Class_0@;
        if find_class(m1.objects, cname) >= 0 {
            assert(obj_at(m1, recv) == Some(Obj::Class(cname)));
        } else {
            assert(recv.addr == 0);
            assert(obj_at(m1, recv) is None);
        }
        assert(step(m1, f).1 is Obj);
    }
    let frame = CallFrame { receiver: recv, selector: sel, args };
    let v = dispatch(rt, &frame);
    match v {
        Value::Obj(h) => h,
        _ => {
            proof {
                assert(false);
            }
            ObjcObject { addr: 0 }
        },
    }
}

} // verus!
