//! The generated bindings: the concrete constructors and instance
//! methods the example consumer needs, each produced by the binding
//! generator from one declarative descriptor, and each carrying a
//! proved contract against the runtime model.

use crate::descriptor::{MethodDescriptor, ReceiverKind, TypeTag};
use crate::generator::{invoke_constructor, invoke_method};
use crate::model::{
    class_handle, dir_lookup, find_class, lemma_find_class_bounds,
    lemma_resolution, list_model, manager_handle, null_handle, obj_at, reg_sel, resolve_model, sel_count,
    sel_contents_of_directory, sel_default_manager, sel_next_object,
    sel_object_at_index, sel_object_enumerator, sel_string_with_utf8, sel_utf8_string, step,
    FrameModel, Model, Obj, Val,
};
use crate::runtime::{vals, Runtime, Value};
use crate::selector::{chars_of, colon_count, nul_free, terminator};
use crate::ObjcObject;
use vstd::prelude::*;

verus! {

/// No terminator anywhere in `s`: such a text can cross the foreign
/// boundary as one piece.
pub open spec fn no_nul(s: Seq<char>) -> bool {
    forall|i: int| 0 <= i < s.len() ==> s[i] != terminator()
}

/// The selector table after one name was resolved on `m0`, everything
/// else untouched.
pub open spec fn resolved_selectors(m0: Model, name: Seq<char>) -> Seq<Seq<char>> {
    reg_sel(m0.selectors, name).0
}

/// The size a collection handle answers: its element count, or zero for
/// anything that is not a live collection.
pub open spec fn spec_count(m: Model, h: ObjcObject) -> u64 {
    match obj_at(m, h) {
        Some(Obj::Array(elems)) => elems.len() as u64,
        _ => 0,
    }
}

// Pairwise distinctness of the bound selector names.  Dispatch decides
// by name, so a contract that says what one message does must know the
// others are different messages.
pub proof fn lemma_sel_names_distinct()
    ensures
        sel_string_with_utf8() != sel_default_manager(),
        sel_string_with_utf8() != sel_contents_of_directory(),
        sel_string_with_utf8() != sel_count(),
        sel_string_with_utf8() != sel_object_at_index(),
        sel_string_with_utf8() != sel_utf8_string(),
        sel_string_with_utf8() != sel_object_enumerator(),
        sel_string_with_utf8() != sel_next_object(),
        sel_default_manager() != sel_contents_of_directory(),
        sel_default_manager() != sel_count(),
        sel_default_manager() != sel_object_at_index(),
        sel_default_manager() != sel_utf8_string(),
        sel_default_manager() != sel_object_enumerator(),
        sel_default_manager() != sel_next_object(),
        sel_contents_of_directory() != sel_count(),
        sel_contents_of_directory() != sel_object_at_index(),
        sel_contents_of_directory() != sel_utf8_string(),
        sel_contents_of_directory() != sel_object_enumerator(),
        sel_contents_of_directory() != sel_next_object(),
        sel_count() != sel_object_at_index(),
        sel_count() != sel_utf8_string(),
        sel_count() != sel_object_enumerator(),
        sel_count() != sel_next_object(),
        sel_object_at_index() != sel_utf8_string(),
        sel_object_at_index() != sel_object_enumerator(),
        sel_object_at_index() != sel_next_object(),
        sel_utf8_string() != sel_object_enumerator(),
        sel_utf8_string() != sel_next_object(),
        sel_object_enumerator() != sel_next_object(),
{
    reveal_strlit("stringWithUTF8String:");
    reveal_strlit("defaultManager");
    reveal_strlit("contentsOfDirectoryAtPath:error:");
    reveal_strlit("count");
    reveal_strlit("objectAtIndex:");
    reveal_strlit("UTF8String");
    reveal_strlit("objectEnumerator");
    reveal_strlit("nextObject");
    assert(sel_string_with_utf8().len() == 22);
    assert(sel_default_manager().len() == 15);
    assert(sel_contents_of_directory().len() == 33);
    assert(sel_count().len() == 6);
    assert(sel_object_at_index().len() == 15);
    assert(sel_utf8_string().len() == 11);
    assert(sel_object_enumerator().len() == 17);
    assert(sel_next_object().len() == 11);
    assert(sel_default_manager()[0] == 'd' && sel_object_at_index()[0] == 'o');
    assert(sel_utf8_string()[0] == 'U' && sel_next_object()[0] == 'n');
}

/// The descriptor of the collection-size accessor.
pub fn count_descriptor() -> (d: MethodDescriptor)
    ensures
        d.selector_name@ == "count"@,
        d.receiver is Instance,
        d.params@ == Seq::<TypeTag>::empty(),
        d.ret == TypeTag::ULong,
        d.wf(),
{
    let d = MethodDescriptor {
        selector_name: chars_of("count"),
        receiver: ReceiverKind::Instance,
        params: Vec::new(),
        ret: TypeTag::ULong,
    };
    proof {
        reveal_strlit("count");
        assert(colon_count("count"@) == 0) by {
            reveal_with_fuel(colon_count, 7);
        }
        assert(nul_free("count"@));
        assert(d.params@ =~= Seq::<TypeTag>::empty());
    }
    d
}

/// The size of the collection behind `array`: its element count, and 0
/// for anything that is not a live collection (the null answer of the
/// runtime, seen through this binding's unsigned return type).  The
/// store is not changed; only the selector table may have gained the
/// name.
pub fn count(rt: &mut Runtime, array: ObjcObject) -> (r: u64)
    ensures
        final(rt)@.objects == old(rt)@.objects,
        final(rt)@.dirs == old(rt)@.dirs,
        final(rt)@.selectors == resolved_selectors(old(rt)@, sel_count()),
        r == spec_count(old(rt)@, array),
{
    let d = count_descriptor();
    proof {
        vstd::std_specs::vec::axiom_spec_len(&rt.selectors);
        lemma_sel_names_distinct();
        lemma_resolution(old(rt)@, "count"@);
        assert(vals(Seq::<Value>::empty()) =~= Seq::<Val>::empty());
    }
    let v = invoke_method(rt, &d, array, Vec::new());
    match v {
        Value::ULong(n) => n,
        _ => 0,
    }
}


/// The characters of the string object behind `h`, if `h` is one.
pub open spec fn path_text(m: Model, h: ObjcObject) -> Option<Seq<char>> {
    match obj_at(m, h) {
        Some(Obj::Str(t)) => Some(t),
        _ => None,
    }
}

/// Whether `h` is a live collection, and its elements.
pub open spec fn is_array(m: Model, h: ObjcObject) -> bool {
    obj_at(m, h) matches Some(Obj::Array(e))
}

pub open spec fn arr_elems(m: Model, h: ObjcObject) -> Seq<ObjcObject> {
    match obj_at(m, h) {
        Some(Obj::Array(e)) => e,
        _ => Seq::empty(),
    }
}

/// The element a collection answers at a position: null outside
/// `0..count`, and null for anything that is not a live collection.
pub open spec fn spec_element(m: Model, h: ObjcObject, idx: u64) -> ObjcObject {
    match obj_at(m, h) {
        Some(Obj::Array(e)) => if idx < e.len() {
            e[idx as int]
        } else {
            null_handle()
        },
        _ => null_handle(),
    }
}

/// The entries the directory tree holds for the path named by the
/// string object behind `path`, if any.
pub open spec fn listing_entries(m: Model, path: ObjcObject) -> Option<Seq<Seq<char>>> {
    match path_text(m, path) {
        Some(t) => dir_lookup(m.dirs, t),
        None => None,
    }
}

/// What a directory listing leaves behind.  On a live manager receiver
/// and a string path the tree knows: one fresh string object per entry
/// and one fresh collection of their handles, whose handle is answered;
/// the collection's count is the entry count, and each element is a
/// non-null string handle carrying the matching entry, in the tree's
/// order.  In every other case: null, and no new objects.
pub open spec fn listing_post(
    m0: Model,
    m1: Model,
    mgr: ObjcObject,
    path: ObjcObject,
    r: ObjcObject,
) -> bool {
    if obj_at(m0, mgr) == Some(Obj::Manager) && listing_entries(m0, path) is Some {
        let entries = listing_entries(m0, path)->Some_0;
        &&& entries.len() <= u64::MAX
        &&& m1.objects == list_model(m0, entries).0.objects
        &&& r.addr == m0.objects.len() + entries.len() + 1
        &&& !r.is_null()
        &&& spec_count(m1, r) == entries.len() as u64
        &&& forall|i: int|
            0 <= i < entries.len() ==> !(#[trigger] spec_element(m1, r, i as u64)).is_null()
                && path_text(m1, spec_element(m1, r, i as u64)) == Some(entries[i])
    } else {
        m1.objects == m0.objects && r.is_null()
    }
}

/// What handing out the next element leaves behind: on a live cursor
/// with elements left, that element and the cursor advanced by one; on
/// an exhausted cursor, null and nothing changed — exhaustion is
/// terminal; on anything that is no cursor, null and nothing changed.
pub open spec fn next_post(m0: Model, m1: Model, e: ObjcObject, r: ObjcObject) -> bool {
    match obj_at(m0, e) {
        Some(Obj::Enumerator(elems, pos)) => if 0 <= pos && pos < elems.len() {
            &&& m1.objects == m0.objects.update(e.addr - 1, Obj::Enumerator(elems, pos + 1))
            &&& r == elems[pos]
        } else {
            m1.objects == m0.objects && r.is_null()
        },
        _ => m1.objects == m0.objects && r.is_null(),
    }
}

/// The descriptor of the string constructor.
pub fn string_ctor_descriptor() -> (d: MethodDescriptor)
    ensures
        d.selector_name@ == "stringWithUTF8String:"@,
        d.receiver matches ReceiverKind::Class(n) && n@ == "NSString"@,
        d.params@ == seq![TypeTag::Text],
        d.ret == TypeTag::Obj,
        d.wf(),
{
    let mut params: Vec<TypeTag> = Vec::new();
    params.push(TypeTag::Text);
    let d = MethodDescriptor {
        selector_name: chars_of("stringWithUTF8String:"),
        receiver: ReceiverKind::Class(chars_of("NSString")),
        params,
        ret: TypeTag::Obj,
    };
    proof {
        reveal_strlit("stringWithUTF8String:");
        reveal_strlit("NSString");
        assert(colon_count("stringWithUTF8String:"@) == 1) by {
            reveal_with_fuel(colon_count, 23);
        }
        assert(nul_free("stringWithUTF8String:"@));
        assert(nul_free("NSString"@));
        assert(d.params@ =~= seq![TypeTag::Text]);
    }
    d
}

/// The string constructor: a fresh string object of the given
/// characters, through the `NSString` class.  When that class exists
/// (as it does in every store `Runtime::new` grew), the answer is a
/// fresh non-null handle to a string object holding exactly `text`'s
/// characters; without the class, null.  Only the selector table gains
/// a name besides.
pub fn NSString(rt: &mut Runtime, text: &str) -> (r: ObjcObject)
    requires
        no_nul(text@),
    ensures
        final(rt)@.dirs == old(rt)@.dirs,
        final(rt)@.selectors == resolved_selectors(old(rt)@, sel_string_with_utf8()),
        find_class(old(rt)@.objects, "NSString"@) >= 0 ==> ({
            &&& final(rt)@.objects == old(rt)@.objects.push(Obj::Str(text@))
            &&& r.addr == old(rt)@.objects.len() + 1
            &&& !r.is_null()
            &&& obj_at(final(rt)@, r) == Some(Obj::Str(text@))
        }),
        find_class(old(rt)@.objects, "NSString"@) < 0 ==> final(rt)@.objects == old(rt)@.objects
            && r.is_null(),
{
    string_object(rt, chars_of(text))
}

/// The string constructor over a character vector; `NSString` is this
/// binding at the text type callers usually hold.
pub fn string_object(rt: &mut Runtime, text: Vec<char>) -> (r: ObjcObject)
    ensures
        final(rt)@.dirs == old(rt)@.dirs,
        final(rt)@.selectors == resolved_selectors(old(rt)@, sel_string_with_utf8()),
        find_class(old(rt)@.objects, "NSString"@) >= 0 ==> ({
            &&& final(rt)@.objects == old(rt)@.objects.push(Obj::Str(text@))
            &&& r.addr == old(rt)@.objects.len() + 1
            &&& !r.is_null()
            &&& obj_at(final(rt)@, r) == Some(Obj::Str(text@))
        }),
        find_class(old(rt)@.objects, "NSString"@) < 0 ==> final(rt)@.objects == old(rt)@.objects
            && r.is_null(),
{
    let d = string_ctor_descriptor();
    proof {
        vstd::std_specs::vec::axiom_spec_len(&rt.selectors);
        vstd::std_specs::vec::axiom_spec_len(&rt.objects);
    }
    let ghost tv = text@;
    let mut args: Vec<Value> = Vec::new();
    args.push(Value::Text(text));
    proof {
        lemma_resolution(old(rt)@, "stringWithUTF8String:"@);
        lemma_find_class_bounds(old(rt)@.objects, "NSString"@);
        assert(vals(args@) =~= seq![Val::Text(tv)]);
    }
    invoke_constructor(rt, &d, args)
}

/// The file-manager wrapper: one foreign handle, wrapped by the
/// constructor the descriptor declares.
pub struct NSFileManager(pub ObjcObject);

/// The descriptor of the shared-instance constructor.
pub fn default_manager_descriptor() -> (d: MethodDescriptor)
    ensures
        d.selector_name@ == "defaultManager"@,
        d.receiver matches ReceiverKind::Class(n) && n@ == "NSFileManager"@,
        d.params@ == Seq::<TypeTag>::empty(),
        d.ret == TypeTag::Obj,
        d.wf(),
{
    let d = MethodDescriptor {
        selector_name: chars_of("defaultManager"),
        receiver: ReceiverKind::Class(chars_of("NSFileManager")),
        params: Vec::new(),
        ret: TypeTag::Obj,
    };
    proof {
        reveal_strlit("defaultManager");
        reveal_strlit("NSFileManager");
        assert(colon_count("defaultManager"@) == 0) by {
            reveal_with_fuel(colon_count, 16);
        }
        assert(nul_free("defaultManager"@));
        assert(nul_free("NSFileManager"@));
        assert(d.params@ =~= Seq::<TypeTag>::empty());
    }
    d
}

/// The descriptor of the directory-listing method.
pub fn contents_descriptor() -> (d: MethodDescriptor)
    ensures
        d.selector_name@ == "contentsOfDirectoryAtPath:error:"@,
        d.receiver is Instance,
        d.params@ == seq![TypeTag::Obj, TypeTag::OutObj],
        d.ret == TypeTag::Obj,
        d.wf(),
{
    let mut params: Vec<TypeTag> = Vec::new();
    params.push(TypeTag::Obj);
    params.push(TypeTag::OutObj);
    let d = MethodDescriptor {
        selector_name: chars_of("contentsOfDirectoryAtPath:error:"),
        receiver: ReceiverKind::Instance,
        params,
        ret: TypeTag::Obj,
    };
    proof {
        reveal_strlit("contentsOfDirectoryAtPath:error:");
        assert(colon_count("contentsOfDirectoryAtPath:error:"@) == 2) by {
            reveal_with_fuel(colon_count, 34);
        }
        assert(nul_free("contentsOfDirectoryAtPath:error:"@));
        assert(d.params@ =~= seq![TypeTag::Obj, TypeTag::OutObj]);
    }
    d
}

impl NSFileManager {
    /// The shared file-manager instance, through the `NSFileManager`
    /// class.  When that class exists, the answer wraps the singleton's
    /// handle (null only if the store held no singleton); without the
    /// class, null.  The store itself is never changed.
    pub fn default(rt: &mut Runtime) -> (r: NSFileManager)
        ensures
            final(rt)@.objects == old(rt)@.objects,
            final(rt)@.dirs == old(rt)@.dirs,
            final(rt)@.selectors == resolved_selectors(old(rt)@, sel_default_manager()),
            find_class(old(rt)@.objects, "NSFileManager"@) >= 0 ==> Val::Obj(r.0)
                == manager_handle(old(rt)@),
            find_class(old(rt)@.objects, "NSFileManager"@) < 0 ==> r.0.is_null(),
    {
        let d = default_manager_descriptor();
        proof {
            vstd::std_specs::vec::axiom_spec_len(&rt.selectors);
            vstd::std_specs::vec::axiom_spec_len(&rt.objects);
            lemma_resolution(old(rt)@, "defaultManager"@);
            lemma_find_class_bounds(old(rt)@.objects, "NSFileManager"@);
            assert(vals(Seq::<Value>::empty()) =~= Seq::<Val>::empty());
        }
        let h = invoke_constructor(rt, &d, Vec::new());
        NSFileManager(h)
    }

    /// Lists the entries of the directory named by the string object
    /// behind `path`.  `error` is an output slot handle, passed through
    /// without inspection as the descriptor declares.  The answer and
    /// the store change are exactly `listing_post`: a fresh collection
    /// of fresh string handles on success, null on every failure — a
    /// dead receiver, a path that is no string, a path the tree does
    /// not hold.
    pub fn contentsOfDirectory(&self, rt: &mut Runtime, path: ObjcObject, error: ObjcObject) -> (r:
        ObjcObject)
        ensures
            final(rt)@.dirs == old(rt)@.dirs,
            final(rt)@.selectors == resolved_selectors(old(rt)@, sel_contents_of_directory()),
            listing_post(old(rt)@, final(rt)@, self.0, path, r),
    {
        let d = contents_descriptor();
        proof {
            vstd::std_specs::vec::axiom_spec_len(&rt.selectors);
            vstd::std_specs::vec::axiom_spec_len(&rt.objects);
            lemma_resolution(old(rt)@, "contentsOfDirectoryAtPath:error:"@);
            assert(vals(seq![Value::Obj(path), Value::Obj(error)]) =~= seq![
                Val::Obj(path),
                Val::Obj(error),
            ]);
        }
        let mut args: Vec<Value> = Vec::new();
        args.push(Value::Obj(path));
        args.push(Value::Obj(error));
        proof {
            assert(args@ =~= seq![Value::Obj(path), Value::Obj(error)]);
        }
        let v = invoke_method(rt, &d, self.0, args);
        let r = match v {
            Value::Obj(h) => h,
            _ => ObjcObject { addr: 0 },
        };
        proof {
            vstd::std_specs::vec::axiom_spec_len(&rt.objects);
            let m0 = old(rt)@;
            let m1 = resolve_model(m0, "contentsOfDirectoryAtPath:error:"@).0;
            if obj_at(m0, self.0) == Some(Obj::Manager) && listing_entries(m0, path) is Some {
                let entries = listing_entries(m0, path)->Some_0;
                let base = m0.objects.len() as int;
                let n = entries.len() as int;
                let lm = list_model(m1, entries);
                assert(rt@ == lm.0 && v@ == lm.1);
                assert(rt@.objects.len() == base + n + 1);
                assert(base + n + 1 <= usize::MAX);
                assert(r.addr == base + n + 1);
                assert(rt@.objects[base + n] == Obj::Array(
                    Seq::new(n as nat, |i: int| ObjcObject { addr: (base + 1 + i) as u128 }),
                ));
                assert(arr_elems(rt@, r) == Seq::new(
                    n as nat,
                    |i: int| ObjcObject { addr: (base + 1 + i) as u128 },
                ));
                assert forall|i: int|
                    0 <= i < n implies !(#[trigger] spec_element(rt@, r, i as u64)).is_null()
                        && path_text(rt@, spec_element(rt@, r, i as u64)) == Some(entries[i]) by {
                    let e = spec_element(rt@, r, i as u64);
                    assert(arr_elems(rt@, r)[i] == ObjcObject { addr: (base + 1 + i) as u128 });
                    assert(e.addr == base + 1 + i);
                    assert(rt@.objects[base + i] == Obj::Str(entries[i]));
                }
                assert(listing_post(m0, rt@, self.0, path, r));
            } else {
                assert(listing_post(m0, rt@, self.0, path, r));
            }
        }
        r
    }
}


/// The descriptor of the element accessor.
pub fn object_at_index_descriptor() -> (d: MethodDescriptor)
    ensures
        d.selector_name@ == "objectAtIndex:"@,
        d.receiver is Instance,
        d.params@ == seq![TypeTag::ULong],
        d.ret == TypeTag::Obj,
        d.wf(),
{
    let mut params: Vec<TypeTag> = Vec::new();
    params.push(TypeTag::ULong);
    let d = MethodDescriptor {
        selector_name: chars_of("objectAtIndex:"),
        receiver: ReceiverKind::Instance,
        params,
        ret: TypeTag::Obj,
    };
    proof {
        reveal_strlit("objectAtIndex:");
        assert(colon_count("objectAtIndex:"@) == 1) by {
            reveal_with_fuel(colon_count, 16);
        }
        assert(nul_free("objectAtIndex:"@));
        assert(d.params@ =~= seq![TypeTag::ULong]);
    }
    d
}

/// The element of the collection behind `array` at position `idx`:
/// non-null for every position below `count`, null at and beyond
/// `count`, and null for anything that is not a live collection.  The
/// store is never changed.
pub fn objectAtIndex(rt: &mut Runtime, array: ObjcObject, idx: u64) -> (r: ObjcObject)
    ensures
        final(rt)@.objects == old(rt)@.objects,
        final(rt)@.dirs == old(rt)@.dirs,
        final(rt)@.selectors == resolved_selectors(old(rt)@, sel_object_at_index()),
        r == spec_element(old(rt)@, array, idx),
{
    let d = object_at_index_descriptor();
    proof {
        vstd::std_specs::vec::axiom_spec_len(&rt.selectors);
        lemma_resolution(old(rt)@, "objectAtIndex:"@);
        assert(vals(seq![Value::ULong(idx)]) =~= seq![Val::ULong(idx)]);
    }
    let mut args: Vec<Value> = Vec::new();
    args.push(Value::ULong(idx));
    proof {
        assert(args@ =~= seq![Value::ULong(idx)]);
    }
    let v = invoke_method(rt, &d, array, args);
    match v {
        Value::Obj(h) => h,
        _ => ObjcObject { addr: 0 },
    }
}

/// The descriptor of the character extraction accessor.
pub fn utf8_string_descriptor() -> (d: MethodDescriptor)
    ensures
        d.selector_name@ == "UTF8String"@,
        d.receiver is Instance,
        d.params@ == Seq::<TypeTag>::empty(),
        d.ret == TypeTag::Text,
        d.wf(),
{
    let d = MethodDescriptor {
        selector_name: chars_of("UTF8String"),
        receiver: ReceiverKind::Instance,
        params: Vec::new(),
        ret: TypeTag::Text,
    };
    proof {
        reveal_strlit("UTF8String");
        assert(colon_count("UTF8String"@) == 0) by {
            reveal_with_fuel(colon_count, 12);
        }
        assert(nul_free("UTF8String"@));
        assert(d.params@ =~= Seq::<TypeTag>::empty());
    }
    d
}

/// The characters of the string object behind `nsstring`, exactly.
/// The receiver must be a live string object — the foreign runtime
/// has no defined answer for anything else.  The store is never
/// changed.
pub fn UTF8String(rt: &mut Runtime, nsstring: ObjcObject) -> (r: Vec<char>)
    requires
        path_text(old(rt)@, nsstring) is Some,
    ensures
        final(rt)@.objects == old(rt)@.objects,
        final(rt)@.dirs == old(rt)@.dirs,
        final(rt)@.selectors == resolved_selectors(old(rt)@, sel_utf8_string()),
        Some(r@) == path_text(old(rt)@, nsstring),
{
    let d = utf8_string_descriptor();
    proof {
        vstd::std_specs::vec::axiom_spec_len(&rt.selectors);
        lemma_resolution(old(rt)@, "UTF8String"@);
        assert(vals(Seq::<Value>::empty()) =~= Seq::<Val>::empty());
    }
    let v = invoke_method(rt, &d, nsstring, Vec::new());
    match v {
        Value::Text(t) => t,
        _ => {
            proof {
                assert(false);
            }
            Vec::new()
        },
    }
}

/// The descriptor of the enumerator constructor method.
pub fn object_enumerator_descriptor() -> (d: MethodDescriptor)
    ensures
        d.selector_name@ == "objectEnumerator"@,
        d.receiver is Instance,
        d.params@ == Seq::<TypeTag>::empty(),
        d.ret == TypeTag::Obj,
        d.wf(),
{
    let d = MethodDescriptor {
        selector_name: chars_of("objectEnumerator"),
        receiver: ReceiverKind::Instance,
        params: Vec::new(),
        ret: TypeTag::Obj,
    };
    proof {
        reveal_strlit("objectEnumerator");
        assert(colon_count("objectEnumerator"@) == 0) by {
            reveal_with_fuel(colon_count, 18);
        }
        assert(nul_free("objectEnumerator"@));
        assert(d.params@ =~= Seq::<TypeTag>::empty());
    }
    d
}

/// A fresh single-pass enumerator over the collection behind `array`:
/// its cursor starts before the first element.  For anything that is
/// not a live collection the answer is null and the store is unchanged.
pub fn objectEnumerator(rt: &mut Runtime, array: ObjcObject) -> (r: ObjcObject)
    ensures
        final(rt)@.dirs == old(rt)@.dirs,
        final(rt)@.selectors == resolved_selectors(old(rt)@, sel_object_enumerator()),
        is_array(old(rt)@, array) ==> ({
            &&& final(rt)@.objects == old(rt)@.objects.push(
                Obj::Enumerator(arr_elems(old(rt)@, array), 0),
            )
            &&& r.addr == old(rt)@.objects.len() + 1
            &&& !r.is_null()
            &&& obj_at(final(rt)@, r) == Some(Obj::Enumerator(arr_elems(old(rt)@, array), 0))
        }),
        !is_array(old(rt)@, array) ==> final(rt)@.objects == old(rt)@.objects && r.is_null(),
{
    let d = object_enumerator_descriptor();
    proof {
        vstd::std_specs::vec::axiom_spec_len(&rt.selectors);
        vstd::std_specs::vec::axiom_spec_len(&rt.objects);
        lemma_sel_names_distinct();
        lemma_resolution(old(rt)@, "objectEnumerator"@);
        assert(vals(Seq::<Value>::empty()) =~= Seq::<Val>::empty());
    }
    let v = invoke_method(rt, &d, array, Vec::new());
    match v {
        Value::Obj(h) => h,
        _ => ObjcObject { addr: 0 },
    }
}

/// The descriptor of the enumerator's advancing accessor.
pub fn next_object_descriptor() -> (d: MethodDescriptor)
    ensures
        d.selector_name@ == "nextObject"@,
        d.receiver is Instance,
        d.params@ == Seq::<TypeTag>::empty(),
        d.ret == TypeTag::Obj,
        d.wf(),
{
    let d = MethodDescriptor {
        selector_name: chars_of("nextObject"),
        receiver: ReceiverKind::Instance,
        params: Vec::new(),
        ret: TypeTag::Obj,
    };
    proof {
        reveal_strlit("nextObject");
        assert(colon_count("nextObject"@) == 0) by {
            reveal_with_fuel(colon_count, 12);
        }
        assert(nul_free("nextObject"@));
        assert(d.params@ =~= Seq::<TypeTag>::empty());
    }
    d
}

/// The next element of the enumerator behind `enumerator`, advancing
/// its cursor; null exactly once the cursor is exhausted, and null
/// forever after, the cursor unchanged.  Anything that is no enumerator
/// answers null with nothing changed.
pub fn nextObject(rt: &mut Runtime, enumerator: ObjcObject) -> (r: ObjcObject)
    ensures
        final(rt)@.dirs == old(rt)@.dirs,
        final(rt)@.selectors == resolved_selectors(old(rt)@, sel_next_object()),
        next_post(old(rt)@, final(rt)@, enumerator, r),
{
    let d = next_object_descriptor();
    proof {
        vstd::std_specs::vec::axiom_spec_len(&rt.selectors);
        lemma_sel_names_distinct();
        lemma_resolution(old(rt)@, "nextObject"@);
        assert(vals(Seq::<Value>::empty()) =~= Seq::<Val>::empty());
    }
    let v = invoke_method(rt, &d, enumerator, Vec::new());
    match v {
        Value::Obj(h) => h,
        _ => ObjcObject { addr: 0 },
    }
}

/// A constructor binding applied to a class name that does not exist
/// answers the wrapped null handle: the class lookup misses, dispatch
/// on the null receiver is the benign no-op, and nothing changes but
/// the selector table.
pub proof fn lemma_constructor_unknown_class(
    m: Model,
    cname: Seq<char>,
    raw: Seq<char>,
    args: Seq<Val>,
)
    requires
        m.selectors.len() <= usize::MAX,
        find_class(m.objects, cname) < 0,
    ensures
        ({
            let (m1, sel) = resolve_model(m, raw);
            let f = FrameModel { receiver: class_handle(m1.objects, cname), selector: sel, args };
            step(m1, f).0 == m1 && step(m1, f).1 == Val::Obj(null_handle())
        }),
{
    lemma_resolution(m, raw);
}

/// A collection with no elements answers a count of zero.
pub proof fn lemma_count_empty(m: Model, h: ObjcObject)
    requires
        obj_at(m, h) == Some(Obj::Array(Seq::<ObjcObject>::empty())),
    ensures
        spec_count(m, h) == 0,
{
}

/// Whether the cursor behind `e` is exhausted.
pub open spec fn enumerator_exhausted(m: Model, e: ObjcObject) -> bool {
    obj_at(m, e) matches Some(Obj::Enumerator(elems, pos)) && pos >= elems.len()
}

/// Exhaustion is terminal: an exhausted enumerator answers null, and
/// the answer leaves it exhausted, so every further answer is null too.
pub proof fn lemma_exhausted_enumerator_stays_null(
    m0: Model,
    m1: Model,
    e: ObjcObject,
    r: ObjcObject,
)
    requires
        enumerator_exhausted(m0, e),
        next_post(m0, m1, e, r),
    ensures
        r.is_null(),
        enumerator_exhausted(m1, e),
{
}

/// Every position below a successful listing's count holds a non-null
/// handle, and it is a string handle carrying the matching entry.
pub proof fn lemma_listing_elements_nonnull(
    m0: Model,
    m1: Model,
    mgr: ObjcObject,
    path: ObjcObject,
    r: ObjcObject,
    i: u64,
)
    requires
        listing_post(m0, m1, mgr, path, r),
        obj_at(m0, mgr) == Some(Obj::Manager),
        listing_entries(m0, path) is Some,
        i < spec_count(m1, r),
    ensures
        !spec_element(m1, r, i).is_null(),
        path_text(m1, spec_element(m1, r, i)) == Some(listing_entries(m0, path)->Some_0[i as int]),
{
    let entries = listing_entries(m0, path)->Some_0;
    assert(entries.len() <= u64::MAX);
    assert(spec_count(m1, r) == entries.len() as u64);
    assert((i as int) < entries.len());
    assert(!spec_element(m1, r, (i as int) as u64).is_null());
}

} // verus!
