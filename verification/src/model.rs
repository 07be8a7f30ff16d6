//! The mathematical model of the foreign object runtime.
//!
//! The runtime is pictured as three growing tables: registered selector
//! names, live objects, and the directory tree the file-manager object
//! answers from.  `step` is the meaning of the single generic dispatch
//! entry point: given a model and a call frame it says exactly which
//! model comes out and which value is returned.  Every executable part
//! of the layer is specified against this one function.

use crate::selector::spec_terminated;
use crate::{ObjcObject, Selector};
use vstd::prelude::*;

verus! {

/// One foreign object, as the model sees it.
pub ghost enum Obj {
    /// A class object, carrying the class's name.
    Class(Seq<char>),
    /// A string object and its characters.
    Str(Seq<char>),
    /// An immutable collection of object handles.
    Array(Seq<ObjcObject>),
    /// A single-pass cursor over a collection: the elements and how many
    /// have been handed out.  Exhaustion is terminal.
    Enumerator(Seq<ObjcObject>, int),
    /// The file-manager singleton.
    Manager,
}

/// The whole runtime: selector table, object store, directory tree.
/// Selector and object handles are the one-based positions in their
/// tables; address zero is null and never occupied.
pub ghost struct Model {
    pub selectors: Seq<Seq<char>>,
    pub objects: Seq<Obj>,
    pub dirs: Seq<(Seq<char>, Seq<Seq<char>>)>,
}

/// A value that can cross the dispatch boundary.
pub ghost enum Val {
    /// An object handle (possibly null).
    Obj(ObjcObject),
    /// A selector handle.
    Sel(Selector),
    /// An unsigned machine word.
    ULong(u64),
    /// The characters behind a string pointer.
    Text(Seq<char>),
}

/// One dispatch call: receiver, selector, then the declared arguments in
/// declared order.
pub ghost struct FrameModel {
    pub receiver: ObjcObject,
    pub selector: Selector,
    pub args: Seq<Val>,
}

/// The null object handle.
pub open spec fn null_handle() -> ObjcObject {
    ObjcObject { addr: 0 }
}

/// The name a selector handle stands for, if the handle is live.
pub open spec fn sel_name(m: Model, s: Selector) -> Option<Seq<char>> {
    if 1 <= s.addr && s.addr <= m.selectors.len() {
        Some(m.selectors[s.addr - 1])
    } else {
        None
    }
}

/// The object a handle refers to, if the handle is live.
pub open spec fn obj_at(m: Model, h: ObjcObject) -> Option<Obj> {
    if 1 <= h.addr && h.addr <= m.objects.len() {
        Some(m.objects[h.addr - 1])
    } else {
        None
    }
}

/// First position of a class object named `name`, or -1.
pub open spec fn find_class(objs: Seq<Obj>, name: Seq<char>) -> int
    decreases objs.len(),
{
    if objs.len() == 0 {
        -1
    } else if objs[0] matches Obj::Class(n) && n == name {
        0
    } else {
        let r = find_class(objs.drop_first(), name);
        if r < 0 {
            -1
        } else {
            r + 1
        }
    }
}

/// The handle a class lookup by name yields: null when no class object
/// of that name exists.
pub open spec fn class_handle(objs: Seq<Obj>, name: Seq<char>) -> ObjcObject {
    let i = find_class(objs, name);
    if i < 0 {
        null_handle()
    } else {
        ObjcObject { addr: (i + 1) as u128 }
    }
}

/// First position of the file-manager singleton, or -1.
pub open spec fn find_manager(objs: Seq<Obj>) -> int
    decreases objs.len(),
{
    if objs.len() == 0 {
        -1
    } else if objs[0] is Manager {
        0
    } else {
        let r = find_manager(objs.drop_first());
        if r < 0 {
            -1
        } else {
            r + 1
        }
    }
}

/// First position of `name` in the selector table, or -1.
pub open spec fn find_sel(sels: Seq<Seq<char>>, name: Seq<char>) -> int
    decreases sels.len(),
{
    if sels.len() == 0 {
        -1
    } else if sels[0] == name {
        0
    } else {
        let r = find_sel(sels.drop_first(), name);
        if r < 0 {
            -1
        } else {
            r + 1
        }
    }
}

/// Registering a (terminated) selector name: an already-known name keeps
/// its handle and the table; a new name is appended.  Registration never
/// fails and never yields the null selector.
pub open spec fn reg_sel(sels: Seq<Seq<char>>, tname: Seq<char>) -> (Seq<Seq<char>>, Selector) {
    let i = find_sel(sels, tname);
    if i >= 0 {
        (sels, Selector { addr: (i + 1) as u128 })
    } else {
        (sels.push(tname), Selector { addr: (sels.len() + 1) as u128 })
    }
}

/// The entries listed for a path, by the first matching directory entry,
/// or `None` when the tree has no such path.
pub open spec fn dir_lookup(dirs: Seq<(Seq<char>, Seq<Seq<char>>)>, p: Seq<char>) -> Option<
    Seq<Seq<char>>,
>
    decreases dirs.len(),
{
    if dirs.len() == 0 {
        None
    } else if dirs[0].0 == p {
        Some(dirs[0].1)
    } else {
        dir_lookup(dirs.drop_first(), p)
    }
}

// The selector names the modelled classes answer to, in their
// runtime-terminated form.
pub open spec fn sel_string_with_utf8() -> Seq<char> {
    spec_terminated("stringWithUTF8String:"@)
}

pub open spec fn sel_default_manager() -> Seq<char> {
    spec_terminated("defaultManager"@)
}

pub open spec fn sel_contents_of_directory() -> Seq<char> {
    spec_terminated("contentsOfDirectoryAtPath:error:"@)
}

pub open spec fn sel_count() -> Seq<char> {
    spec_terminated("count"@)
}

pub open spec fn sel_object_at_index() -> Seq<char> {
    spec_terminated("objectAtIndex:"@)
}

pub open spec fn sel_utf8_string() -> Seq<char> {
    spec_terminated("UTF8String"@)
}

pub open spec fn sel_object_enumerator() -> Seq<char> {
    spec_terminated("objectEnumerator"@)
}

pub open spec fn sel_next_object() -> Seq<char> {
    spec_terminated("nextObject"@)
}

/// A dispatch that does nothing and answers null.
pub open spec fn null_result(m: Model) -> (Model, Val) {
    (m, Val::Obj(null_handle()))
}

/// A fresh object appended to the store; its handle is the new one-based
/// position, so it is never null and never collides with a live handle.
pub open spec fn alloc_model(m: Model, o: Obj) -> (Model, Val) {
    (
        Model { selectors: m.selectors, objects: m.objects.push(o), dirs: m.dirs },
        Val::Obj(ObjcObject { addr: (m.objects.len() + 1) as u128 }),
    )
}

/// The file-manager singleton's handle, or null when the store has none.
pub open spec fn manager_handle(m: Model) -> Val {
    let i = find_manager(m.objects);
    if i < 0 {
        Val::Obj(null_handle())
    } else {
        Val::Obj(ObjcObject { addr: (i + 1) as u128 })
    }
}

/// A successful directory listing: one fresh string object per entry, in
/// the tree's order, then one fresh array of their handles; the array's
/// handle is answered.
pub open spec fn list_model(m: Model, entries: Seq<Seq<char>>) -> (Model, Val) {
    let base = m.objects.len();
    let strs = Seq::new(entries.len(), |i: int| Obj::Str(entries[i]));
    let elems = Seq::new(entries.len(), |i: int| ObjcObject { addr: (base + 1 + i) as u128 });
    (
        Model {
            selectors: m.selectors,
            objects: m.objects + strs + seq![Obj::Array(elems)],
            dirs: m.dirs,
        },
        Val::Obj(ObjcObject { addr: (base + entries.len() + 1) as u128 }),
    )
}

/// What a class object answers: its constructors.
pub open spec fn step_class(m: Model, args: Seq<Val>, name: Seq<char>, cls: Seq<char>) -> (
    Model,
    Val,
) {
    if name == sel_string_with_utf8() && cls == "NSString"@ && args.len() == 1 && args[0] is Text {
        alloc_model(m, Obj::Str(args[0]->Text_0))
    } else if name == sel_default_manager() && cls == "NSFileManager"@ && args.len() == 0 {
        (m, manager_handle(m))
    } else {
        null_result(m)
    }
}

/// What the file manager answers: listing a directory by a string path.
/// The second declared argument is an error-output slot; it is passed
/// through without inspection.  A path that is no string, or not in the
/// tree, answers null.
pub open spec fn step_manager(m: Model, args: Seq<Val>, name: Seq<char>) -> (Model, Val) {
    if name == sel_contents_of_directory() && args.len() == 2 {
        match args[0] {
            Val::Obj(p) => match obj_at(m, p) {
                Some(Obj::Str(text)) => match dir_lookup(m.dirs, text) {
                    Some(entries) => list_model(m, entries),
                    None => null_result(m),
                },
                _ => null_result(m),
            },
            _ => null_result(m),
        }
    } else {
        null_result(m)
    }
}

/// What a collection answers: its size, an element by position, or a
/// fresh single-pass enumerator over its elements.
pub open spec fn step_array(m: Model, args: Seq<Val>, name: Seq<char>, elems: Seq<ObjcObject>) -> (
    Model,
    Val,
) {
    if name == sel_count() && args.len() == 0 {
        (m, Val::ULong(elems.len() as u64))
    } else if name == sel_object_at_index() && args.len() == 1 {
        match args[0] {
            Val::ULong(n) => if n < elems.len() {
                (m, Val::Obj(elems[n as int]))
            } else {
                null_result(m)
            },
            _ => null_result(m),
        }
    } else if name == sel_object_enumerator() && args.len() == 0 {
        alloc_model(m, Obj::Enumerator(elems, 0))
    } else {
        null_result(m)
    }
}

/// What an enumerator answers: the next element and an advanced cursor,
/// or null once exhausted — and from then on null forever, unchanged.
pub open spec fn step_enumerator(
    m: Model,
    receiver: ObjcObject,
    args: Seq<Val>,
    name: Seq<char>,
    elems: Seq<ObjcObject>,
    pos: int,
) -> (Model, Val) {
    if name == sel_next_object() && args.len() == 0 {
        if 0 <= pos && pos < elems.len() {
            (
                Model {
                    selectors: m.selectors,
                    objects: m.objects.update(
                        receiver.addr - 1,
                        Obj::Enumerator(elems, pos + 1),
                    ),
                    dirs: m.dirs,
                },
                Val::Obj(elems[pos]),
            )
        } else {
            null_result(m)
        }
    } else {
        null_result(m)
    }
}

/// What a string object answers: its characters.
pub open spec fn step_str(m: Model, args: Seq<Val>, name: Seq<char>, text: Seq<char>) -> (
    Model,
    Val,
) {
    if name == sel_utf8_string() && args.len() == 0 {
        (m, Val::Text(text))
    } else {
        null_result(m)
    }
}

/// Dispatch on a live receiver, by the receiver's kind.
pub open spec fn step_obj(m: Model, f: FrameModel, name: Seq<char>, obj: Obj) -> (Model, Val) {
    match obj {
        Obj::Class(cls) => step_class(m, f.args, name, cls),
        Obj::Manager => step_manager(m, f.args, name),
        Obj::Array(elems) => step_array(m, f.args, name, elems),
        Obj::Enumerator(elems, pos) => step_enumerator(m, f.receiver, f.args, name, elems, pos),
        Obj::Str(text) => step_str(m, f.args, name, text),
    }
}

/// The meaning of the generic dispatch entry point.  A null or dead
/// receiver or selector is answered by null with nothing changed; the
/// same holds for any message a receiver does not understand.  Dispatch
/// itself never fails.
pub open spec fn step(m: Model, f: FrameModel) -> (Model, Val) {
    match (sel_name(m, f.selector), obj_at(m, f.receiver)) {
        (Some(name), Some(obj)) => step_obj(m, f, name, obj),
        _ => null_result(m),
    }
}

// What the recursive find functions say about their tables, connected to
// position-wise facts, for use by the executable scans.

pub proof fn lemma_find_class_at(objs: Seq<Obj>, name: Seq<char>, i: int)
    requires
        0 <= i <= objs.len(),
        forall|j: int| 0 <= j < i ==> !(#[trigger] objs[j] matches Obj::Class(n) && n == name),
    ensures
        i == objs.len() ==> find_class(objs, name) == -1,
        i < objs.len() && (objs[i] matches Obj::Class(n) && n == name) ==> find_class(objs, name)
            == i,
    decreases objs.len(),
{
    if objs.len() > 0 {
        if objs[0] matches Obj::Class(n) && n == name {
        } else {
            if i > 0 {
                lemma_find_class_at(objs.drop_first(), name, i - 1);
            } else {
                lemma_find_class_at(objs.drop_first(), name, 0);
            }
        }
    }
}

pub proof fn lemma_find_manager_at(objs: Seq<Obj>, i: int)
    requires
        0 <= i <= objs.len(),
        forall|j: int| 0 <= j < i ==> !(objs[j] is Manager),
    ensures
        i == objs.len() ==> find_manager(objs) == -1,
        i < objs.len() && objs[i] is Manager ==> find_manager(objs) == i,
    decreases objs.len(),
{
    if objs.len() > 0 {
        if objs[0] is Manager {
        } else {
            if i > 0 {
                lemma_find_manager_at(objs.drop_first(), i - 1);
            } else {
                lemma_find_manager_at(objs.drop_first(), 0);
            }
        }
    }
}

pub proof fn lemma_find_sel_at(sels: Seq<Seq<char>>, name: Seq<char>, i: int)
    requires
        0 <= i <= sels.len(),
        forall|j: int| 0 <= j < i ==> sels[j] != name,
    ensures
        i == sels.len() ==> find_sel(sels, name) == -1,
        i < sels.len() && sels[i] == name ==> find_sel(sels, name) == i,
    decreases sels.len(),
{
    if sels.len() > 0 {
        if sels[0] == name {
        } else {
            if i > 0 {
                lemma_find_sel_at(sels.drop_first(), name, i - 1);
            } else {
                lemma_find_sel_at(sels.drop_first(), name, 0);
            }
        }
    }
}

pub proof fn lemma_dir_lookup_at(dirs: Seq<(Seq<char>, Seq<Seq<char>>)>, p: Seq<char>, i: int)
    requires
        0 <= i <= dirs.len(),
        forall|j: int| 0 <= j < i ==> dirs[j].0 != p,
    ensures
        i == dirs.len() ==> dir_lookup(dirs, p) is None,
        i < dirs.len() && dirs[i].0 == p ==> dir_lookup(dirs, p) == Some(dirs[i].1),
    decreases dirs.len(),
{
    if dirs.len() > 0 {
        if dirs[0].0 == p {
        } else {
            if i > 0 {
                lemma_dir_lookup_at(dirs.drop_first(), p, i - 1);
            } else {
                lemma_dir_lookup_at(dirs.drop_first(), p, 0);
            }
        }
    }
}

/// Resolving one selector name twice hands out the same handle and
/// leaves the table exactly as the first resolution left it.
pub proof fn lemma_reg_sel_idempotent(sels: Seq<Seq<char>>, tname: Seq<char>)
    ensures
        ({
            let (s1, h1) = reg_sel(sels, tname);
            let (s2, h2) = reg_sel(s1, tname);
            s2 == s1 && h2 == h1
        }),
{
    let i = find_sel(sels, tname);
    if i >= 0 {
        lemma_find_sel_bounds(sels, tname);
    } else {
        lemma_find_sel_none_push(sels, tname);
    }
}

pub proof fn lemma_find_sel_bounds(sels: Seq<Seq<char>>, name: Seq<char>)
    ensures
        find_sel(sels, name) >= 0 ==> find_sel(sels, name) < sels.len() && sels[find_sel(
            sels,
            name,
        )] == name,
        find_sel(sels, name) >= -1,
    decreases sels.len(),
{
    if sels.len() > 0 && !(sels[0] == name) {
        lemma_find_sel_bounds(sels.drop_first(), name);
    }
}

/// Registration never loses a name: the table before is a prefix of
/// the table after.
pub proof fn lemma_reg_sel_extends(sels: Seq<Seq<char>>, tname: Seq<char>)
    ensures
        sels.is_prefix_of(reg_sel(sels, tname).0),
{
    let after = reg_sel(sels, tname).0;
    assert(sels =~= after.subrange(0, sels.len() as int));
}

/// Resolving a raw selector name: the terminator is supplied exactly
/// once, then the terminated name is registered.
pub open spec fn resolve_model(m: Model, raw: Seq<char>) -> (Model, Selector) {
    let (sels, s) = reg_sel(m.selectors, spec_terminated(raw));
    (Model { selectors: sels, objects: m.objects, dirs: m.dirs }, s)
}

/// What resolution leaves behind: the handle is live and names the
/// terminated name; objects and tree are untouched.
pub proof fn lemma_resolution(m0: Model, raw: Seq<char>)
    requires
        m0.selectors.len() <= usize::MAX,
    ensures
        ({
            let (m1, sel) = resolve_model(m0, raw);
            &&& sel_name(m1, sel) == Some(spec_terminated(raw))
            &&& m1.objects == m0.objects
            &&& m1.dirs == m0.dirs
            &&& m1.selectors == reg_sel(m0.selectors, spec_terminated(raw)).0
            &&& !sel.is_null()
        }),
{
    let t = spec_terminated(raw);
    lemma_find_sel_bounds(m0.selectors, t);
    let i = find_sel(m0.selectors, t);
    let (m1, sel) = resolve_model(m0, raw);
    if i >= 0 {
        assert(sel.addr == i + 1);
        assert(m1.selectors[sel.addr - 1] == t);
    } else {
        assert(sel.addr == m0.selectors.len() + 1);
        assert(m1.selectors[sel.addr - 1] == t);
    }
}

pub proof fn lemma_find_class_bounds(objs: Seq<Obj>, name: Seq<char>)
    ensures
        find_class(objs, name) >= 0 ==> find_class(objs, name) < objs.len() && objs[find_class(
            objs,
            name,
        )] == Obj::Class(name),
    decreases objs.len(),
{
    if objs.len() > 0 && !(objs[0] matches Obj::Class(n) && n == name) {
        lemma_find_class_bounds(objs.drop_first(), name);
    }
}

/// A name that is absent is found at the end right after it is appended.
pub proof fn lemma_find_sel_none_push(sels: Seq<Seq<char>>, name: Seq<char>)
    requires
        find_sel(sels, name) < 0,
    ensures
        find_sel(sels.push(name), name) == sels.len(),
    decreases sels.len(),
{
    let pushed = sels.push(name);
    if sels.len() == 0 {
        assert(pushed[0] == name);
    } else {
        if pushed[0] == name {
            assert(sels[0] == name);
            assert(find_sel(sels, name) == 0);
        } else {
            assert(pushed.drop_first() =~= sels.drop_first().push(name));
            lemma_find_sel_none_push(sels.drop_first(), name);
        }
    }
}

} // verus!
