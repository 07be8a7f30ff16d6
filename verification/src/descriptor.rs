//! Declarative method descriptors and the shape of the calls they
//! generate.
//!
//! A descriptor says, for one constructor or instance method of a
//! foreign class: the selector name, the receiver kind (a named class
//! for a constructor, the instance itself for a method), and the
//! declared argument and return types.  The generator derives from it,
//! mechanically, the exact dispatch signature — receiver, selector,
//! then the declared arguments, in order — so a declared binding can
//! never be invoked with a frame of another shape.

use crate::model::{FrameModel, Val};
use crate::selector::{arity, colon_count, is_nul_free, nul_free};
use crate::{ObjcObject, Selector};
use vstd::prelude::*;

verus! {

/// The native argument and return types a binding can declare.
#[derive(Clone, Copy, PartialEq, Eq, Structural, Debug)]
pub enum TypeTag {
    /// An object handle.
    Obj,
    /// A selector handle; reserved for the dispatch slot after the
    /// receiver, never a declared parameter.
    Sel,
    /// An unsigned machine word.
    ULong,
    /// A pointer to characters.
    Text,
    /// An output slot for an object handle, passed through without
    /// inspection.
    OutObj,
}

/// How a generated binding acquires its receiver.
pub enum ReceiverKind {
    /// A constructor: the receiver is the class of this name, looked up
    /// at call time.
    Class(Vec<char>),
    /// An instance method: the receiver is the handle the generated
    /// call is invoked on.
    Instance,
}

/// One declarative binding description.
pub struct MethodDescriptor {
    pub selector_name: Vec<char>,
    pub receiver: ReceiverKind,
    pub params: Vec<TypeTag>,
    pub ret: TypeTag,
}

/// Whether a boundary value fits a declared slot type.
pub open spec fn val_matches(v: Val, t: TypeTag) -> bool {
    match t {
        TypeTag::Obj => v is Obj,
        TypeTag::Sel => v is Sel,
        TypeTag::ULong => v is ULong,
        TypeTag::Text => v is Text,
        TypeTag::OutObj => v is Obj,
    }
}

/// Whether the supplied arguments fit the declared parameters, one for
/// one, in order.
pub open spec fn args_match(args: Seq<Val>, params: Seq<TypeTag>) -> bool {
    &&& args.len() == params.len()
    &&& forall|i: int| 0 <= i < args.len() ==> val_matches(#[trigger] args[i], params[i])
}

/// The dispatch signature synthesized from declared parameters: the
/// receiver slot, the selector slot, then the declared types in order.
pub open spec fn spec_signature(params: Seq<TypeTag>) -> Seq<TypeTag> {
    seq![TypeTag::Obj, TypeTag::Sel] + params
}

/// The flat argument list the dispatch entry point is invoked with:
/// receiver, selector, then the supplied arguments in declared order.
pub open spec fn frame_flat(f: FrameModel) -> Seq<Val> {
    seq![Val::Obj(f.receiver), Val::Sel(f.selector)] + f.args
}

/// The frame fits the signature, slot for slot.
pub open spec fn frame_matches_signature(f: FrameModel, sig: Seq<TypeTag>) -> bool {
    &&& sig.len() == frame_flat(f).len()
    &&& forall|i: int| 0 <= i < sig.len() ==> val_matches(#[trigger] frame_flat(f)[i], sig[i])
}

impl MethodDescriptor {
    /// The declarative invariant: the selector name can be transported
    /// to the runtime, its colon count equals the declared parameter
    /// count, and no declared slot usurps the selector slot.
    pub open spec fn wf(&self) -> bool {
        &&& nul_free(self.selector_name@)
        &&& colon_count(self.selector_name@) == self.params@.len()
        &&& (forall|i: int|
            0 <= i < self.params@.len() ==> #[trigger] self.params@[i] != TypeTag::Sel)
        &&& match self.receiver {
            ReceiverKind::Class(n) => nul_free(n@),
            ReceiverKind::Instance => true,
        }
    }

    /// Checks the declarative invariant.
    pub fn validate(&self) -> (r: bool)
        ensures
            r == self.wf(),
    {
        if !is_nul_free(self.selector_name.as_slice()) {
            return false;
        }
        if arity(self.selector_name.as_slice()) != self.params.len() {
            return false;
        }
        let n = self.params.len();
        let mut i: usize = 0;
        while i < n
            invariant
                n == self.params@.len(),
                i <= n,
                forall|j: int| 0 <= j < i ==> #[trigger] self.params@[j] != TypeTag::Sel,
            decreases n - i,
        {
            if self.params[i] == TypeTag::Sel {
                return false;
            }
            i = i + 1;
        }
        match &self.receiver {
            ReceiverKind::Class(cn) => is_nul_free(cn.as_slice()),
            ReceiverKind::Instance => true,
        }
    }
}

/// The synthesized dispatch signature of a descriptor: exactly the
/// receiver slot, the selector slot, and the declared parameters, in
/// declared order.
pub fn synthesize_signature(d: &MethodDescriptor) -> (sig: Vec<TypeTag>)
    ensures
        sig@ == spec_signature(d.params@),
{
    let mut sig: Vec<TypeTag> = Vec::new();
    sig.push(TypeTag::Obj);
    sig.push(TypeTag::Sel);
    let n = d.params.len();
    let mut i: usize = 0;
    while i < n
        invariant
            n == d.params@.len(),
            i <= n,
            sig@.len() == 2 + i,
            sig@[0] == TypeTag::Obj,
            sig@[1] == TypeTag::Sel,
            forall|j: int| 0 <= j < i ==> #[trigger] sig@[2 + j] == d.params@[j],
        decreases n - i,
    {
        sig.push(d.params[i]);
        i = i + 1;
    }
    proof {
        assert forall|k: int| 0 <= k < sig@.len() implies sig@[k] == spec_signature(d.params@)[k]
        by {
            if k >= 2 {
                assert(sig@[2 + (k - 2)] == d.params@[k - 2]);
            }
        }
        assert(sig@ =~= spec_signature(d.params@));
    }
    sig
}

/// The generated call's shape.  For every declared parameter list and
/// every matching argument list, the synthesized signature has exactly
/// 2 + N slots — receiver, selector, then the N declared types — and
/// the frame the generator builds fits it slot for slot, with the
/// supplied arguments unchanged and in declared order after the
/// receiver and the selector.
pub proof fn lemma_generated_call_shape(
    params: Seq<TypeTag>,
    receiver: ObjcObject,
    sel: Selector,
    args: Seq<Val>,
)
    requires
        args_match(args, params),
    ensures
        spec_signature(params).len() == 2 + params.len(),
        frame_flat(FrameModel { receiver, selector: sel, args }).len() == 2 + args.len(),
        frame_flat(FrameModel { receiver, selector: sel, args })[0] == Val::Obj(receiver),
        frame_flat(FrameModel { receiver, selector: sel, args })[1] == Val::Sel(sel),
        frame_flat(FrameModel { receiver, selector: sel, args }).skip(2) == args,
        frame_matches_signature(
            FrameModel { receiver, selector: sel, args },
            spec_signature(params),
        ),
{
    let f = FrameModel { receiver, selector: sel, args };
    let sig = spec_signature(params);
    assert(frame_flat(f).skip(2) =~= args);
    assert forall|i: int| 0 <= i < sig.len() implies val_matches(
        #[trigger] frame_flat(f)[i],
        sig[i],
    ) by {
        if i >= 2 {
            assert(frame_flat(f)[i] == args[i - 2]);
            assert(sig[i] == params[i - 2]);
            assert(val_matches(args[i - 2], params[i - 2]));
        }
    }
}

} // verus!
