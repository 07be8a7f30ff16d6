#![allow(non_snake_case)]
//! A binding layer for a selector-dispatched foreign object runtime.
//!
//! Code talks to the foreign runtime through exactly three primitives:
//! class lookup by name, selector registration by name, and one generic
//! dispatch entry point.  A declarative method descriptor drives a
//! generator that synthesizes, for each described constructor or method,
//! the exact call shape (receiver, selector, declared arguments in order)
//! that the dispatch entry point is invoked with.  The runtime itself is
//! modelled here as an explicit object store, so every binding carries a
//! proved contract about what dispatch returns and how the store changes.

pub mod descriptor;
pub mod file_manager;
pub mod generator;
pub mod model;
pub mod runtime;
pub mod selector;
pub mod walk;

use vstd::prelude::*;

verus! {

/// An opaque handle to one object instance of the foreign runtime.
///
/// The layer never looks inside an object; a handle only identifies it.
/// The address 0 is the null handle, the runtime's "absent or failed"
/// value.  Handles are plain values: freely copied, compared by address.
#[derive(Clone, Copy, PartialEq, Eq, Structural, Debug, Hash)]
pub struct ObjcObject {
    pub addr: u128,
}

impl ObjcObject {
    /// The null handle: no object.
    pub fn null() -> (r: ObjcObject)
        ensures
            r.addr == 0,
    {
        ObjcObject { addr: 0 }
    }

    pub open spec fn spec_is_null(self) -> bool {
        self.addr == 0
    }

    /// Whether this is the null handle.
    #[verifier::when_used_as_spec(spec_is_null)]
    pub fn is_null(self) -> (r: bool)
        ensures
            r == self.spec_is_null(),
    {
        self.addr == 0
    }
}

/// A resolved method name: an opaque handle handed out by selector
/// registration.  Two registrations of one name yield equal handles.
#[derive(Clone, Copy, PartialEq, Eq, Structural, Debug, Hash)]
pub struct Selector {
    pub addr: u128,
}

impl Selector {
    pub open spec fn spec_is_null(self) -> bool {
        self.addr == 0
    }

    /// Whether this selector handle resolves to nothing.
    #[verifier::when_used_as_spec(spec_is_null)]
    pub fn is_null(self) -> (r: bool)
        ensures
            r == self.spec_is_null(),
    {
        self.addr == 0
    }
}

/// Registers a method name with the runtime and hands back its stable
/// selector handle.  The runtime's terminator is supplied exactly once,
/// whether or not `name` already ends in it; registration is idempotent
/// and the handle is never null.  Each labelled argument position of the
/// name must end in a colon; a zero-argument name has no colon.
pub fn register_name(rt: &mut runtime::Runtime, name: &str) -> (s: Selector)
    requires
        selector::nul_free(name@),
    ensures
        final(rt)@.objects == old(rt)@.objects,
        final(rt)@.dirs == old(rt)@.dirs,
        (final(rt)@.selectors, s) == model::reg_sel(
            old(rt)@.selectors,
            selector::spec_terminated(name@),
        ),
        !s.is_null(),
{
    let cs = selector::chars_of(name);
    runtime::register_selector(rt, cs.as_slice())
}

/// Looks a class up by exact name.  A name no class object carries is
/// answered by the null handle; the miss is the caller's to observe,
/// never retried here.
pub fn get_class(rt: &runtime::Runtime, name: &str) -> (r: ObjcObject)
    ensures
        r == model::class_handle(rt@.objects, name@),
{
    let cs = selector::chars_of(name);
    runtime::class_lookup(rt, cs.as_slice())
}

} // verus!
