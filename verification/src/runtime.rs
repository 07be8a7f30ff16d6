//! The executable foreign runtime and its dispatch entry point.
//!
//! `Runtime` is the object store the bindings run against: it realises
//! the model of `crate::model` table for table, and `dispatch` is proved
//! to do exactly what the model's `step` says, for every frame.  Objects
//! are created only by the runtime itself; handles are one-based store
//! positions, wide enough that a fresh allocation can never wrap into
//! the null address.

use crate::model::{
    alloc_model, class_handle, list_model,
    lemma_dir_lookup_at, lemma_find_class_at, lemma_find_manager_at, lemma_find_sel_at,
    manager_handle, null_handle, obj_at, reg_sel, sel_contents_of_directory, sel_count, sel_default_manager, sel_name,
    sel_next_object, sel_object_at_index, sel_object_enumerator, sel_string_with_utf8,
    sel_utf8_string, step, step_array, step_class, step_enumerator, step_manager, FrameModel, Model, Obj, Val,
};
use crate::selector::{chars_eq, chars_of, spec_terminated, terminated};
use crate::{ObjcObject, Selector};
use vstd::prelude::*;
use vstd::slice::slice_to_vec;

verus! {

/// One object of the store, the executable image of `model::Obj`.
pub enum ObjectData {
    Class(Vec<char>),
    Str(Vec<char>),
    Array(Vec<ObjcObject>),
    Enumerator(Vec<ObjcObject>, usize),
    Manager,
}

impl View for ObjectData {
    type V = Obj;

    open spec fn view(&self) -> Obj {
        match self {
            ObjectData::Class(n) => Obj::Class(n@),
            ObjectData::Str(t) => Obj::Str(t@),
            ObjectData::Array(e) => Obj::Array(e@),
            ObjectData::Enumerator(e, p) => Obj::Enumerator(e@, *p as int),
            ObjectData::Manager => Obj::Manager,
        }
    }
}

impl ObjectData {
    /// The characters of a string object, or nothing for any other kind.
    fn str_text(&self) -> (r: Option<Vec<char>>)
        ensures
            self@ is Str ==> (r matches Some(v) && v@ == self@->Str_0),
            !(self@ is Str) ==> r is None,
    {
        match self {
            ObjectData::Str(t) => Some(clone_chars(t)),
            _ => None,
        }
    }

    /// An equal object, field for field.
    pub fn duplicate(&self) -> (r: ObjectData)
        ensures
            r@ == self@,
    {
        match self {
            ObjectData::Class(n) => ObjectData::Class(clone_chars(n)),
            ObjectData::Str(t) => ObjectData::Str(clone_chars(t)),
            ObjectData::Array(e) => ObjectData::Array(clone_handles(e)),
            ObjectData::Enumerator(e, p) => ObjectData::Enumerator(clone_handles(e), *p),
            ObjectData::Manager => ObjectData::Manager,
        }
    }
}

/// A value crossing the dispatch boundary, the executable image of
/// `model::Val`.
pub enum Value {
    Obj(ObjcObject),
    Sel(Selector),
    ULong(u64),
    Text(Vec<char>),
}

impl View for Value {
    type V = Val;

    open spec fn view(&self) -> Val {
        match self {
            Value::Obj(h) => Val::Obj(*h),
            Value::Sel(s) => Val::Sel(*s),
            Value::ULong(n) => Val::ULong(*n),
            Value::Text(t) => Val::Text(t@),
        }
    }
}

/// The views of a sequence of boundary values.
pub open spec fn vals(s: Seq<Value>) -> Seq<Val> {
    s.map_values(|v: Value| v@)
}

/// One dispatch call, assembled by the binding generator: the receiver,
/// the resolved selector, and the declared arguments in declared order.
pub struct CallFrame {
    pub receiver: ObjcObject,
    pub selector: Selector,
    pub args: Vec<Value>,
}

impl View for CallFrame {
    type V = FrameModel;

    open spec fn view(&self) -> FrameModel {
        FrameModel { receiver: self.receiver, selector: self.selector, args: vals(self.args@) }
    }
}

/// The runtime's three tables.
pub struct Runtime {
    pub selectors: Vec<Vec<char>>,
    pub objects: Vec<ObjectData>,
    pub dirs: Vec<(Vec<char>, Vec<Vec<char>>)>,
}

impl View for Runtime {
    type V = Model;

    open spec fn view(&self) -> Model {
        Model {
            selectors: self.selectors@.map_values(|v: Vec<char>| v@),
            objects: self.objects@.map_values(|o: ObjectData| o@),
            dirs: self.dirs@.map_values(
                |d: (Vec<char>, Vec<Vec<char>>)| (d.0@, d.1@.map_values(|e: Vec<char>| e@)),
            ),
        }
    }
}

/// The store a fresh runtime starts from: the two known class objects
/// and the file-manager singleton, no selectors, an empty tree.
pub open spec fn init_model() -> Model {
    Model {
        selectors: Seq::empty(),
        objects: seq![Obj::Class("NSString"@), Obj::Class("NSFileManager"@), Obj::Manager],
        dirs: Seq::empty(),
    }
}

impl Runtime {
    /// A fresh runtime.
    pub fn new() -> (rt: Runtime)
        ensures
            rt@ == init_model(),
    {
        let mut objects: Vec<ObjectData> = Vec::new();
        objects.push(ObjectData::Class(chars_of("NSString")));
        objects.push(ObjectData::Class(chars_of("NSFileManager")));
        objects.push(ObjectData::Manager);
        let rt = Runtime { selectors: Vec::new(), objects, dirs: Vec::new() };
        proof {
            assert(rt@.selectors =~= init_model().selectors);
            assert(rt@.objects =~= init_model().objects);
            assert(rt@.dirs =~= init_model().dirs);
            assert(rt@ == init_model());
        }
        rt
    }

    /// Enters one directory into the tree: `path` will list `entries`,
    /// in this order.  This is the state the real file system holds
    /// outside the process; here it is explicit.
    pub fn add_directory(&mut self, path: &str, entries: Vec<String>) -> (r: ())
        ensures
            final(self)@.selectors == old(self)@.selectors,
            final(self)@.objects == old(self)@.objects,
            final(self)@.dirs == old(self)@.dirs.push((path@, entries.deep_view())),
    {
        let p = chars_of(path);
        let n = entries.len();
        let mut es: Vec<Vec<char>> = Vec::new();
        let mut i: usize = 0;
        while i < n
            invariant
                n == entries@.len(),
                i <= n,
                es@.len() == i,
                forall|j: int| 0 <= j < i ==> #[trigger] es@[j]@ == entries.deep_view()[j],
            decreases n - i,
        {
            es.push(chars_of(entries[i].as_str()));
            i = i + 1;
        }
        proof {
            assert(es@.map_values(|e: Vec<char>| e@) =~= entries.deep_view());
        }
        self.dirs.push((p, es));
        proof {
            assert(self@.dirs =~= old(self)@.dirs.push((path@, entries.deep_view())));
            assert(self@.selectors =~= old(self)@.selectors);
            assert(self@.objects =~= old(self)@.objects);
        }
    }

    /// Appends a fresh object and hands back its (never null) handle.
    fn allocate(&mut self, o: ObjectData) -> (r: ObjcObject)
        ensures
            final(self)@.selectors == old(self)@.selectors,
            final(self)@.dirs == old(self)@.dirs,
            final(self)@.objects == old(self)@.objects.push(o@),
            old(self)@.objects.len() <= usize::MAX,
            r.addr == old(self)@.objects.len() + 1,
            !r.is_null(),
            (final(self)@, Val::Obj(r)) == alloc_model(old(self)@, o@),
    {
        let idx: usize = self.objects.len();
        self.objects.push(o);
        proof {
            assert(self@.objects =~= old(self)@.objects.push(o@));
            assert(self@.selectors =~= old(self)@.selectors);
            assert(self@.dirs =~= old(self)@.dirs);
        }
        ObjcObject { addr: (idx as u128) + 1 }
    }
}

/// An equal character vector.
pub fn clone_chars(v: &Vec<char>) -> (r: Vec<char>)
    ensures
        r@ == v@,
{
    slice_to_vec(v.as_slice())
}

/// An equal handle vector.
pub fn clone_handles(v: &Vec<ObjcObject>) -> (r: Vec<ObjcObject>)
    ensures
        r@ == v@,
{
    slice_to_vec(v.as_slice())
}


// The selector names the modelled classes answer to, in executable,
// runtime-terminated form.

fn name_string_with_utf8() -> (r: Vec<char>)
    ensures
        r@ == sel_string_with_utf8(),
{
    terminated(chars_of("stringWithUTF8String:").as_slice())
}

fn name_default_manager() -> (r: Vec<char>)
    ensures
        r@ == sel_default_manager(),
{
    terminated(chars_of("defaultManager").as_slice())
}

fn name_contents_of_directory() -> (r: Vec<char>)
    ensures
        r@ == sel_contents_of_directory(),
{
    terminated(chars_of("contentsOfDirectoryAtPath:error:").as_slice())
}

fn name_count() -> (r: Vec<char>)
    ensures
        r@ == sel_count(),
{
    terminated(chars_of("count").as_slice())
}

fn name_object_at_index() -> (r: Vec<char>)
    ensures
        r@ == sel_object_at_index(),
{
    terminated(chars_of("objectAtIndex:").as_slice())
}

fn name_utf8_string() -> (r: Vec<char>)
    ensures
        r@ == sel_utf8_string(),
{
    terminated(chars_of("UTF8String").as_slice())
}

fn name_object_enumerator() -> (r: Vec<char>)
    ensures
        r@ == sel_object_enumerator(),
{
    terminated(chars_of("objectEnumerator").as_slice())
}

fn name_next_object() -> (r: Vec<char>)
    ensures
        r@ == sel_next_object(),
{
    terminated(chars_of("nextObject").as_slice())
}

/// Whether a boundary value is a text value.
fn is_text_value(v: &Value) -> (r: bool)
    ensures
        r == (v@ is Text),
{
    match v {
        Value::Text(_) => true,
        _ => false,
    }
}

/// Whether a boundary value is an object handle.
fn is_obj_value(v: &Value) -> (r: bool)
    ensures
        r == (v@ is Obj),
{
    match v {
        Value::Obj(_) => true,
        _ => false,
    }
}

/// Whether a boundary value is an unsigned word.
fn is_ulong_value(v: &Value) -> (r: bool)
    ensures
        r == (v@ is ULong),
{
    match v {
        Value::ULong(_) => true,
        _ => false,
    }
}

/// The handle a scan of the store finds for the file-manager singleton.
fn manager_lookup(rt: &Runtime) -> (r: ObjcObject)
    ensures
        Val::Obj(r) == manager_handle(rt@),
{
    let n = rt.objects.len();
    let mut i: usize = 0;
    while i < n
        invariant
            n == rt.objects@.len(),
            i <= n,
            forall|j: int| 0 <= j < i ==> !(#[trigger] rt@.objects[j] is Manager),
        decreases n - i,
    {
        let found = match &rt.objects[i] {
            ObjectData::Manager => true,
            _ => false,
        };
        proof {
            assert(rt@.objects[i as int] == rt.objects@[i as int]@);
        }
        if found {
            proof {
                lemma_find_manager_at(rt@.objects, i as int);
            }
            return ObjcObject { addr: (i as u128) + 1 };
        }
        i = i + 1;
    }
    proof {
        lemma_find_manager_at(rt@.objects, n as int);
    }
    ObjcObject { addr: 0 }
}

/// Equal texts, element for element.
fn clone_texts(v: &Vec<Vec<char>>) -> (r: Vec<Vec<char>>)
    ensures
        r@.len() == v@.len(),
        forall|j: int| 0 <= j < v@.len() ==> #[trigger] r@[j]@ == v@[j]@,
{
    let n = v.len();
    let mut r: Vec<Vec<char>> = Vec::new();
    let mut i: usize = 0;
    while i < n
        invariant
            n == v@.len(),
            i <= n,
            r@.len() == i,
            forall|j: int| 0 <= j < i ==> #[trigger] r@[j]@ == v@[j]@,
        decreases n - i,
    {
        r.push(clone_chars(&v[i]));
        i = i + 1;
    }
    r
}

/// The views of the texts of `v`.
pub open spec fn texts_view(v: Seq<Vec<char>>) -> Seq<Seq<char>> {
    v.map_values(|e: Vec<char>| e@)
}

impl Runtime {
    /// The string objects and the array object a successful listing
    /// creates, exactly as `list_model` lays them out.
    fn alloc_listing(&mut self, entries: Vec<Vec<char>>) -> (r: Value)
        ensures
            (final(self)@, r@) == list_model(old(self)@, texts_view(entries@)),
    {
        let ghost base = old(self)@.objects.len();
        let n = entries.len();
        let mut elems: Vec<ObjcObject> = Vec::new();
        let mut i: usize = 0;
        while i < n
            invariant
                n == entries@.len(),
                i <= n,
                elems@.len() == i,
                base == old(self)@.objects.len(),
                self@.selectors == old(self)@.selectors,
                self@.dirs == old(self)@.dirs,
                self@.objects.len() == base + i,
                forall|j: int| 0 <= j < base ==> #[trigger] self@.objects[j]
                    == old(self)@.objects[j],
                forall|j: int| 0 <= j < i ==> #[trigger] self@.objects[base + j] == Obj::Str(
                    entries@[j]@,
                ),
                forall|j: int| 0 <= j < i ==> (#[trigger] elems@[j]).addr == base + 1 + j,
            decreases n - i,
        {
            let h = self.allocate(ObjectData::Str(clone_chars(&entries[i])));
            elems.push(h);
            i = i + 1;
        }
        let ghost evs = elems@;
        let ghost pre = self@.objects;
        let ah = self.allocate(ObjectData::Array(elems));
        proof {
            let lm = list_model(old(self)@, texts_view(entries@));
            let tv = texts_view(entries@);
            let strs = Seq::new(tv.len(), |j: int| Obj::Str(tv[j]));
            assert(evs =~= Seq::new(
                tv.len(),
                |j: int| ObjcObject { addr: (base + 1 + j) as u128 },
            ));
            let whole = old(self)@.objects + strs + seq![Obj::Array(evs)];
            assert(self@.objects.len() == whole.len());
            assert forall|k: int| 0 <= k < whole.len() implies self@.objects[k] == whole[k] by {
                if k < base + n {
                    assert(self@.objects[k] == pre[k]);
                    if k >= base {
                        let j = k - base;
                        assert(pre[base + j] == Obj::Str(entries@[j]@));
                        assert(tv[j] == entries@[j]@);
                    }
                }
            }
            assert(self@.objects =~= whole);
            assert(self@ == lm.0);
            assert(ah.addr == base + n + 1);
            assert(lm.1 == Val::Obj(ah));
        }
        Value::Obj(ah)
    }
}

/// Dispatch on a class object: the modelled constructors.
fn dispatch_class(rt: &mut Runtime, cls: Vec<char>, name: Vec<char>, frame: &CallFrame) -> (r:
    Value)
    requires
        sel_name(old(rt)@, frame.selector) == Some(name@),
        obj_at(old(rt)@, frame.receiver) == Some(Obj::Class(cls@)),
    ensures
        final(rt)@ == step(old(rt)@, frame@).0,
        r@ == step(old(rt)@, frame@).1,
{
    proof {
        assert(step(old(rt)@, frame@) == step_class(old(rt)@, vals(frame.args@), name@, cls@));
        assert(vals(frame.args@).len() == frame.args@.len());
    }
    let is_string_ctor = chars_eq(name.as_slice(), name_string_with_utf8().as_slice())
        && chars_eq(cls.as_slice(), chars_of("NSString").as_slice()) && frame.args.len() == 1
        && is_text_value(&frame.args[0]);
    proof {
        if frame.args@.len() == 1 {
            assert(vals(frame.args@)[0] == frame.args@[0]@);
        }
    }
    if is_string_ctor {
        match &frame.args[0] {
            Value::Text(t) => {
                let h = rt.allocate(ObjectData::Str(clone_chars(t)));
                return Value::Obj(h);
            },
            _ => {
                proof {
                    assert(false);
                }
                return Value::Obj(ObjcObject { addr: 0 });
            },
        }
    }
    let is_default_manager = chars_eq(name.as_slice(), name_default_manager().as_slice())
        && chars_eq(cls.as_slice(), chars_of("NSFileManager").as_slice()) && frame.args.len() == 0;
    if is_default_manager {
        let h = manager_lookup(rt);
        return Value::Obj(h);
    }
    Value::Obj(ObjcObject { addr: 0 })
}

/// Dispatch on the file manager: listing a directory.
#[verifier::loop_isolation(false)]
fn dispatch_manager(rt: &mut Runtime, name: Vec<char>, frame: &CallFrame) -> (r: Value)
    requires
        sel_name(old(rt)@, frame.selector) == Some(name@),
        obj_at(old(rt)@, frame.receiver) == Some(Obj::Manager),
    ensures
        final(rt)@ == step(old(rt)@, frame@).0,
        r@ == step(old(rt)@, frame@).1,
{
    proof {
        assert(step(old(rt)@, frame@) == step_manager(old(rt)@, vals(frame.args@), name@));
        assert(vals(frame.args@).len() == frame.args@.len());
        if frame.args@.len() == 2 {
            assert(vals(frame.args@)[0] == frame.args@[0]@);
        }
    }
    let is_listing = chars_eq(name.as_slice(), name_contents_of_directory().as_slice())
        && frame.args.len() == 2 && is_obj_value(&frame.args[0]);
    if !is_listing {
        return Value::Obj(ObjcObject { addr: 0 });
    }
    let path = match &frame.args[0] {
        Value::Obj(p) => *p,
        _ => {
            proof {
                assert(false);
            }
            ObjcObject { addr: 0 }
        },
    };
    // Resolve the path handle to a string object.
    let nobj = rt.objects.len();
    if !(1 <= path.addr && path.addr <= nobj as u128) {
        proof {
            assert(obj_at(rt@, path) is None);
        }
        return Value::Obj(ObjcObject { addr: 0 });
    }
    let pidx: usize = (path.addr - 1) as usize;
    proof {
        assert(rt@.objects[path.addr - 1] == rt.objects@[pidx as int]@);
    }
    let text = match rt.objects[pidx].str_text() {
        Some(t) => t,
        None => {
            return Value::Obj(ObjcObject { addr: 0 });
        },
    };
    proof {
        assert(obj_at(rt@, path) == Some(Obj::Str(text@)));
    }
    // Look the path up in the directory tree, first match.
    let nd = rt.dirs.len();
    let mut i: usize = 0;
    while i < nd
        invariant
            rt@ == old(rt)@,
            nd == rt.dirs@.len(),
            i <= nd,
            forall|j: int| 0 <= j < i ==> (#[trigger] rt@.dirs[j]).0 != text@,
        decreases nd - i,
    {
        proof {
            assert(rt@.dirs[i as int].0 == rt.dirs@[i as int].0@);
            assert(rt@.dirs[i as int].1 =~= texts_view(rt.dirs@[i as int].1@));
        }
        if chars_eq(rt.dirs[i].0.as_slice(), text.as_slice()) {
            let entries = clone_texts(&rt.dirs[i].1);
            proof {
                lemma_dir_lookup_at(rt@.dirs, text@, i as int);
                assert(texts_view(entries@) =~= texts_view(rt.dirs@[i as int].1@));
                assert(texts_view(entries@) == rt@.dirs[i as int].1);
            }
            return rt.alloc_listing(entries);
        }
        i = i + 1;
    }
    proof {
        lemma_dir_lookup_at(rt@.dirs, text@, nd as int);
    }
    Value::Obj(ObjcObject { addr: 0 })
}

/// Dispatch on a collection object.
fn dispatch_array(rt: &mut Runtime, elems: Vec<ObjcObject>, name: Vec<char>, frame: &CallFrame) -> (
    r: Value)
    requires
        sel_name(old(rt)@, frame.selector) == Some(name@),
        obj_at(old(rt)@, frame.receiver) == Some(Obj::Array(elems@)),
    ensures
        final(rt)@ == step(old(rt)@, frame@).0,
        r@ == step(old(rt)@, frame@).1,
{
    proof {
        assert(step(old(rt)@, frame@) == step_array(old(rt)@, vals(frame.args@), name@, elems@));
        assert(vals(frame.args@).len() == frame.args@.len());
        if frame.args@.len() == 1 {
            assert(vals(frame.args@)[0] == frame.args@[0]@);
        }
    }
    let is_count = chars_eq(name.as_slice(), name_count().as_slice()) && frame.args.len() == 0;
    if is_count {
        let n = elems.len();
        return Value::ULong(n as u64);
    }
    let is_at_index = chars_eq(name.as_slice(), name_object_at_index().as_slice())
        && frame.args.len() == 1 && is_ulong_value(&frame.args[0]);
    if is_at_index {
        let ix: u64 = match &frame.args[0] {
            Value::ULong(n) => *n,
            _ => {
                proof {
                    assert(false);
                }
                0
            },
        };
        if (ix as u128) < (elems.len() as u128) {
            let k = ix as usize;
            return Value::Obj(elems[k]);
        }
        return Value::Obj(ObjcObject { addr: 0 });
    }
    let is_enumerator = chars_eq(name.as_slice(), name_object_enumerator().as_slice())
        && frame.args.len() == 0;
    if is_enumerator {
        let h = rt.allocate(ObjectData::Enumerator(elems, 0));
        return Value::Obj(h);
    }
    Value::Obj(ObjcObject { addr: 0 })
}

/// Dispatch on an enumerator object: handing out the next element.
fn dispatch_enumerator(
    rt: &mut Runtime,
    oidx: usize,
    elems: Vec<ObjcObject>,
    pos: usize,
    name: Vec<char>,
    frame: &CallFrame,
) -> (r: Value)
    requires
        sel_name(old(rt)@, frame.selector) == Some(name@),
        obj_at(old(rt)@, frame.receiver) == Some(Obj::Enumerator(elems@, pos as int)),
        oidx == frame.receiver.addr - 1,
        oidx < old(rt).objects@.len(),
    ensures
        final(rt)@ == step(old(rt)@, frame@).0,
        r@ == step(old(rt)@, frame@).1,
{
    proof {
        assert(step(old(rt)@, frame@) == step_enumerator(
            old(rt)@,
            frame.receiver,
            vals(frame.args@),
            name@,
            elems@,
            pos as int,
        ));
        assert(vals(frame.args@).len() == frame.args@.len());
    }
    let is_next = chars_eq(name.as_slice(), name_next_object().as_slice())
        && frame.args.len() == 0;
    if is_next {
        if pos < elems.len() {
            let v = elems[pos];
            rt.objects.set(oidx, ObjectData::Enumerator(elems, pos + 1));
            proof {
                assert(rt@.objects =~= old(rt)@.objects.update(
                    frame.receiver.addr - 1,
                    Obj::Enumerator(elems@, pos + 1),
                ));
                assert(rt@.selectors =~= old(rt)@.selectors);
                assert(rt@.dirs =~= old(rt)@.dirs);
            }
            return Value::Obj(v);
        }
        return Value::Obj(ObjcObject { addr: 0 });
    }
    Value::Obj(ObjcObject { addr: 0 })
}

/// Dispatch on a string object: handing out its characters.
fn dispatch_str(text: Vec<char>, name: Vec<char>, args_len: usize) -> (r: Value)
    ensures
        args_len == 0 && name@ == sel_utf8_string() ==> r@ == Val::Text(text@),
        !(args_len == 0 && name@ == sel_utf8_string()) ==> r@ == Val::Obj(null_handle()),
{
    let is_utf8 = chars_eq(name.as_slice(), name_utf8_string().as_slice()) && args_len == 0;
    if is_utf8 {
        Value::Text(text)
    } else {
        Value::Obj(ObjcObject { addr: 0 })
    }
}

/// The single generic dispatch entry point, the only way a message
/// reaches an object.  It does exactly what the model's `step` says:
/// a dead or null receiver or selector, and every message a receiver
/// does not understand, is answered by null with nothing changed.
pub fn dispatch(rt: &mut Runtime, frame: &CallFrame) -> (r: Value)
    ensures
        final(rt)@ == step(old(rt)@, frame@).0,
        r@ == step(old(rt)@, frame@).1,
{
    let saddr = frame.selector.addr;
    let nsel = rt.selectors.len();
    if !(1 <= saddr && saddr <= nsel as u128) {
        proof {
            assert(sel_name(rt@, frame.selector) is None);
        }
        return Value::Obj(ObjcObject { addr: 0 });
    }
    let sidx: usize = (saddr - 1) as usize;
    let name = clone_chars(&rt.selectors[sidx]);
    proof {
        assert(rt@.selectors[saddr - 1] == rt.selectors@[sidx as int]@);
        assert(sel_name(rt@, frame.selector) == Some(name@));
    }
    let oaddr = frame.receiver.addr;
    let nobj = rt.objects.len();
    if !(1 <= oaddr && oaddr <= nobj as u128) {
        proof {
            assert(obj_at(rt@, frame.receiver) is None);
        }
        return Value::Obj(ObjcObject { addr: 0 });
    }
    let oidx: usize = (oaddr - 1) as usize;
    let obj = rt.objects[oidx].duplicate();
    proof {
        assert(rt@.objects[oaddr - 1] == rt.objects@[oidx as int]@);
        assert(obj_at(rt@, frame.receiver) == Some(obj@));
    }
    match obj {
        ObjectData::Class(cls) => dispatch_class(rt, cls, name, frame),
        ObjectData::Manager => dispatch_manager(rt, name, frame),
        ObjectData::Array(elems) => dispatch_array(rt, elems, name, frame),
        ObjectData::Enumerator(elems, pos) => dispatch_enumerator(
            rt,
            oidx,
            elems,
            pos,
            name,
            frame,
        ),
        ObjectData::Str(text) => dispatch_str(text, name, frame.args.len()),
    }
}


/// Registers a selector name, supplying the runtime's terminator
/// exactly once.  A name already in the table keeps its handle, so two
/// registrations of one name are interchangeable; a new name is
/// appended.  The handle is never null.
#[verifier::loop_isolation(false)]
pub fn register_selector(rt: &mut Runtime, name: &[char]) -> (s: Selector)
    requires
        crate::selector::nul_free(name@),
    ensures
        final(rt)@.objects == old(rt)@.objects,
        final(rt)@.dirs == old(rt)@.dirs,
        (final(rt)@.selectors, s) == reg_sel(old(rt)@.selectors, spec_terminated(name@)),
        !s.is_null(),
{
    let t = terminated(name);
    let n = rt.selectors.len();
    let mut i: usize = 0;
    while i < n
        invariant
            rt@ == old(rt)@,
            n == rt.selectors@.len(),
            i <= n,
            forall|j: int| 0 <= j < i ==> #[trigger] rt@.selectors[j] != t@,
        decreases n - i,
    {
        proof {
            assert(rt@.selectors[i as int] == rt.selectors@[i as int]@);
        }
        if chars_eq(rt.selectors[i].as_slice(), t.as_slice()) {
            proof {
                lemma_find_sel_at(rt@.selectors, t@, i as int);
            }
            return Selector { addr: (i as u128) + 1 };
        }
        i = i + 1;
    }
    proof {
        lemma_find_sel_at(rt@.selectors, t@, n as int);
    }
    rt.selectors.push(t);
    proof {
        assert(rt@.selectors =~= old(rt)@.selectors.push(spec_terminated(name@)));
        assert(rt@.objects =~= old(rt)@.objects);
        assert(rt@.dirs =~= old(rt)@.dirs);
    }
    Selector { addr: (n as u128) + 1 }
}

/// Looks a class up by exact name: the handle of the first class object
/// of that name, or null when there is none.  A miss is a caller-visible
/// condition, not a fault; nothing is retried.
#[verifier::loop_isolation(false)]
pub fn class_lookup(rt: &Runtime, name: &[char]) -> (r: ObjcObject)
    ensures
        r == class_handle(rt@.objects, name@),
{
    let n = rt.objects.len();
    let mut i: usize = 0;
    while i < n
        invariant
            n == rt.objects@.len(),
            i <= n,
            forall|j: int| 0 <= j < i ==> !(#[trigger] rt@.objects[j] matches Obj::Class(cn)
                && cn == name@),
        decreases n - i,
    {
        proof {
            assert(rt@.objects[i as int] == rt.objects@[i as int]@);
        }
        let found = match &rt.objects[i] {
            ObjectData::Class(cn) => chars_eq(cn.as_slice(), name),
            _ => false,
        };
        if found {
            proof {
                lemma_find_class_at(rt@.objects, name@, i as int);
            }
            return ObjcObject { addr: (i as u128) + 1 };
        }
        i = i + 1;
    }
    proof {
        lemma_find_class_at(rt@.objects, name@, n as int);
    }
    ObjcObject { addr: 0 }
}

} // verus!
