//! The example consumer: walking a directory tree through the
//! generated bindings, nothing else.
//!
//! `recursive_walk` visits every entry the tree reaches from a starting
//! path, depth first, in listing order, and says at which depth it saw
//! each one.  Whether an entry is a directory is decided by listing
//! alone: an entry is a directory exactly when listing it succeeds.  `sim_walk` is the walk's whole meaning, a
//! function of the directory tree alone.

use crate::file_manager::{
    listing_entries, no_nul, path_text, spec_count,
    spec_element, NSFileManager,
};
use crate::model::{
    dir_lookup, find_class, find_manager, obj_at, Model, Obj,
};
use crate::runtime::Runtime;
use crate::selector::chars_of;
use crate::ObjcObject;
use vstd::prelude::*;
use vstd::slice::slice_to_vec;

verus! {

/// One visited entry: its name and the depth it was seen at.
pub struct WalkEntry {
    pub name: Vec<char>,
    pub depth: usize,
}

impl View for WalkEntry {
    type V = (Seq<char>, int);

    open spec fn view(&self) -> (Seq<char>, int) {
        (self.name@, self.depth as int)
    }
}

/// The views of a walk's entries.
pub open spec fn entries_view(s: Seq<WalkEntry>) -> Seq<(Seq<char>, int)> {
    s.map_values(|e: WalkEntry| e@)
}

/// The path of an entry inside a directory: parent, separator, name.
pub open spec fn child_path(parent: Seq<char>, name: Seq<char>) -> Seq<char> {
    parent + seq!['/'] + name
}

/// `child_path`, executably.
pub fn child_join(parent: &[char], name: &[char]) -> (r: Vec<char>)
    ensures
        r@ == child_path(parent@, name@),
{
    let mut r: Vec<char> = slice_to_vec(parent);
    r.push('/');
    let n = name.len();
    let mut i: usize = 0;
    while i < n
        invariant
            n == name@.len(),
            i <= n,
            r@ =~= parent@ + seq!['/'] + name@.take(i as int),
        decreases n - i,
    {
        r.push(*vstd::slice::slice_index_get(name, i));
        proof {
            assert(r@ =~= parent@ + seq!['/'] + name@.take(i + 1));
        }
        i = i + 1;
    }
    proof {
        assert(r@ =~= child_path(parent@, name@));
    }
    r
}

/// The longest path the tree knows; no lookup beyond it succeeds.
pub open spec fn max_path_len(dirs: Seq<(Seq<char>, Seq<Seq<char>>)>) -> int
    decreases dirs.len(),
{
    if dirs.len() == 0 {
        0
    } else {
        let rest = max_path_len(dirs.drop_first());
        if dirs[0].0.len() > rest {
            dirs[0].0.len() as int
        } else {
            rest
        }
    }
}

pub proof fn lemma_lookup_len_bound(dirs: Seq<(Seq<char>, Seq<Seq<char>>)>, p: Seq<char>)
    requires
        dir_lookup(dirs, p) is Some,
    ensures
        p.len() <= max_path_len(dirs),
        max_path_len(dirs) >= 0,
    decreases dirs.len(),
{
    lemma_max_path_len_nonneg(dirs);
    if dirs.len() > 0 && dirs[0].0 != p {
        lemma_lookup_len_bound(dirs.drop_first(), p);
    }
}

pub proof fn lemma_max_path_len_nonneg(dirs: Seq<(Seq<char>, Seq<Seq<char>>)>)
    ensures
        max_path_len(dirs) >= 0,
    decreases dirs.len(),
{
    if dirs.len() > 0 {
        lemma_max_path_len_nonneg(dirs.drop_first());
    }
}

/// The longest path the tree knows, executably; what a caller checks
/// before walking from a very deep starting point.
pub fn max_path_len_exec(rt: &Runtime) -> (r: usize)
    ensures
        r == max_path_len(rt@.dirs),
{
    let n = rt.dirs.len();
    let mut best: usize = 0;
    let mut i: usize = n;
    while i > 0
        invariant
            n == rt.dirs@.len(),
            i <= n,
            best == max_path_len(rt@.dirs.skip(i as int)),
        decreases i,
    {
        i = i - 1;
        proof {
            assert(rt@.dirs.skip(i as int).drop_first() =~= rt@.dirs.skip(i + 1));
            assert(rt@.dirs.skip(i as int)[0] == rt@.dirs[i as int]);
            assert(rt@.dirs[i as int].0 == rt.dirs@[i as int].0@);
        }
        let klen = rt.dirs[i].0.len();
        if klen > best {
            best = klen;
        }
    }
    proof {
        assert(rt@.dirs.skip(0) =~= rt@.dirs);
    }
    best
}

/// The consumer's standing assumptions about the store: the two class
/// objects and the file-manager singleton exist.  A store grown by
/// `Runtime::new` satisfies this, and growing the store keeps it.
pub open spec fn consumer_ready(m: Model) -> bool {
    &&& find_class(m.objects, "NSString"@) >= 0
    &&& find_class(m.objects, "NSFileManager"@) >= 0
    &&& find_manager(m.objects) >= 0
}

/// A store grown by `Runtime::new` is ready.
pub proof fn lemma_new_runtime_ready()
    ensures
        consumer_ready(crate::runtime::init_model()),
{
    let objs = crate::runtime::init_model().objects;
    assert(objs[0] == Obj::Class("NSString"@));
    assert(find_class(objs, "NSString"@) == 0);
    if !(objs[0] matches Obj::Class(n) && n == "NSFileManager"@) {
        assert(objs.drop_first()[0] == Obj::Class("NSFileManager"@));
        assert(find_class(objs.drop_first(), "NSFileManager"@) == 0);
    }
    assert(find_class(objs, "NSFileManager"@) >= 0);
    assert(objs.drop_first().drop_first()[0] == Obj::Manager);
    assert(find_manager(objs.drop_first().drop_first()) == 0);
    assert(objs.drop_first()[0] == Obj::Class("NSFileManager"@));
    assert(find_manager(objs.drop_first()) >= 0);
    assert(find_manager(objs) >= 0);
}

// Extending the store preserves what was found in it.

pub proof fn lemma_find_class_prefix(a: Seq<Obj>, b: Seq<Obj>, name: Seq<char>)
    requires
        a.is_prefix_of(b),
        find_class(a, name) >= 0,
    ensures
        find_class(b, name) == find_class(a, name),
    decreases a.len(),
{
    assert(b[0] == a[0]);
    if !(a[0] matches Obj::Class(n) && n == name) {
        assert(a.drop_first().is_prefix_of(b.drop_first()));
        lemma_find_class_prefix(a.drop_first(), b.drop_first(), name);
    }
}

pub proof fn lemma_find_manager_prefix(a: Seq<Obj>, b: Seq<Obj>)
    requires
        a.is_prefix_of(b),
        find_manager(a) >= 0,
    ensures
        find_manager(b) == find_manager(a),
    decreases a.len(),
{
    assert(b[0] == a[0]);
    if !(a[0] is Manager) {
        assert(a.drop_first().is_prefix_of(b.drop_first()));
        lemma_find_manager_prefix(a.drop_first(), b.drop_first());
    }
}

pub proof fn lemma_consumer_ready_prefix(m1: Model, m2: Model)
    requires
        consumer_ready(m1),
        m1.objects.is_prefix_of(m2.objects),
    ensures
        consumer_ready(m2),
{
    lemma_find_class_prefix(m1.objects, m2.objects, "NSString"@);
    lemma_find_class_prefix(m1.objects, m2.objects, "NSFileManager"@);
    lemma_find_manager_prefix(m1.objects, m2.objects);
}

pub proof fn lemma_prefix_trans<T>(a: Seq<T>, b: Seq<T>, c: Seq<T>)
    requires
        a.is_prefix_of(b),
        b.is_prefix_of(c),
    ensures
        a.is_prefix_of(c),
{
    assert(a =~= c.subrange(0, a.len() as int));
}

/// A handle that was live stays what it was when the store only grew.
pub proof fn lemma_prefix_obj_at(m1: Model, m2: Model, h: ObjcObject)
    requires
        m1.objects.is_prefix_of(m2.objects),
        1 <= h.addr && h.addr <= m1.objects.len(),
    ensures
        obj_at(m2, h) == obj_at(m1, h),
{
    assert(m2.objects[h.addr - 1] == m1.objects[h.addr - 1]);
}

pub proof fn lemma_find_manager_bounds(objs: Seq<Obj>)
    ensures
        find_manager(objs) >= 0 ==> find_manager(objs) < objs.len() && objs[find_manager(objs)]
            is Manager,
    decreases objs.len(),
{
    if objs.len() > 0 && !(objs[0] is Manager) {
        lemma_find_manager_bounds(objs.drop_first());
    }
}

/// Appending something that is not a class object moves no class
/// lookup, and appending a non-singleton moves no singleton lookup.
pub proof fn lemma_find_class_push(objs: Seq<Obj>, o: Obj, name: Seq<char>)
    requires
        !(o matches Obj::Class(n) && n == name),
    ensures
        find_class(objs.push(o), name) == find_class(objs, name),
    decreases objs.len(),
{
    let p = objs.push(o);
    if objs.len() == 0 {
        assert(p[0] == o);
        assert(find_class(p.drop_first(), name) == find_class(Seq::<Obj>::empty(), name)) by {
            assert(p.drop_first() =~= Seq::<Obj>::empty());
        }
    } else {
        assert(p[0] == objs[0]);
        if !(objs[0] matches Obj::Class(n) && n == name) {
            assert(p.drop_first() =~= objs.drop_first().push(o));
            lemma_find_class_push(objs.drop_first(), o, name);
        }
    }
}

pub proof fn lemma_find_manager_push(objs: Seq<Obj>, o: Obj)
    requires
        !(o is Manager),
    ensures
        find_manager(objs.push(o)) == find_manager(objs),
    decreases objs.len(),
{
    let p = objs.push(o);
    if objs.len() == 0 {
        assert(p[0] == o);
        assert(find_manager(p.drop_first()) == find_manager(Seq::<Obj>::empty())) by {
            assert(p.drop_first() =~= Seq::<Obj>::empty());
        }
    } else {
        assert(p[0] == objs[0]);
        if !(objs[0] is Manager) {
            assert(p.drop_first() =~= objs.drop_first().push(o));
            lemma_find_manager_push(objs.drop_first(), o);
        }
    }
}

/// The walk's meaning: the entries listed for `path`, each visited at
/// `depth` in listing order, and between an entry and the next the
/// whole subtree of those entries that list successfully, one deeper.
/// A path the tree does not know contributes nothing.
pub open spec fn sim_walk(
    dirs: Seq<(Seq<char>, Seq<Seq<char>>)>,
    path: Seq<char>,
    depth: int,
) -> Seq<(Seq<char>, int)>
    decreases max_path_len(dirs) + 1 - path.len(), 1int, 0int,
    when path.len() <= max_path_len(dirs) || dir_lookup(dirs, path) is None
    via sim_walk_decreases
{
    match dir_lookup(dirs, path) {
        Some(entries) => sim_walk_entries(dirs, path, entries, depth, 0),
        None => Seq::empty(),
    }
}

/// The tail of the walk of `path`'s entries from position `i` on.
pub open spec fn sim_walk_entries(
    dirs: Seq<(Seq<char>, Seq<Seq<char>>)>,
    path: Seq<char>,
    entries: Seq<Seq<char>>,
    depth: int,
    i: int,
) -> Seq<(Seq<char>, int)>
    decreases max_path_len(dirs) + 1 - path.len(), 0int, entries.len() - i,
    when path.len() <= max_path_len(dirs)
    via sim_walk_entries_decreases
{
    if i < 0 || i >= entries.len() {
        Seq::empty()
    } else {
        let child = child_path(path, entries[i]);
        let sub = if dir_lookup(dirs, child) is Some {
            sim_walk(dirs, child, depth + 1)
        } else {
            Seq::empty()
        };
        seq![(entries[i], depth)] + sub + sim_walk_entries(dirs, path, entries, depth, i + 1)
    }
}

#[via_fn]
proof fn sim_walk_decreases(
    dirs: Seq<(Seq<char>, Seq<Seq<char>>)>,
    path: Seq<char>,
    depth: int,
) {
    if dir_lookup(dirs, path) is Some {
        lemma_lookup_len_bound(dirs, path);
    }
}

#[via_fn]
proof fn sim_walk_entries_decreases(
    dirs: Seq<(Seq<char>, Seq<Seq<char>>)>,
    path: Seq<char>,
    entries: Seq<Seq<char>>,
    depth: int,
    i: int,
) {
    if 0 <= i && i < entries.len() {
        let child = child_path(path, entries[i]);
        if dir_lookup(dirs, child) is Some {
            lemma_lookup_len_bound(dirs, child);
        }
    }
}


/// One listing through the bindings: the string object for `path`, the
/// shared manager, the listing call.  Null exactly unless the store is
/// ready and the tree knows the path; on success, the answered
/// collection holds one non-null string handle per entry, in order.
fn list_path(rt: &mut Runtime, path: Vec<char>) -> (r: ObjcObject)
    ensures
        final(rt)@.dirs == old(rt)@.dirs,
        old(rt)@.objects.is_prefix_of(final(rt)@.objects),
        old(rt)@.selectors.is_prefix_of(final(rt)@.selectors),
        r.is_null() == !(consumer_ready(old(rt)@) && dir_lookup(old(rt)@.dirs, path@) is Some),
        !r.is_null() ==> ({
            let entries = dir_lookup(old(rt)@.dirs, path@)->Some_0;
            &&& entries.len() <= u64::MAX
            &&& r.addr == final(rt)@.objects.len()
            &&& spec_count(final(rt)@, r) == entries.len() as u64
            &&& forall|i: int|
                0 <= i < entries.len() ==> !(#[trigger] spec_element(
                    final(rt)@,
                    r,
                    i as u64,
                )).is_null() && path_text(final(rt)@, spec_element(final(rt)@, r, i as u64))
                    == Some(entries[i])
        }),
{
    let ghost m0 = rt@;
    let ghost pv = path@;
    let p_obj = crate::file_manager::string_object(rt, path);
    let ghost ms = rt@;
    let fm = NSFileManager::default(rt);
    let ghost md = rt@;
    proof {
        if find_class(m0.objects, "NSString"@) >= 0 {
            assert(ms.objects == m0.objects.push(Obj::Str(pv)));
            assert(m0.objects.is_prefix_of(ms.objects)) by {
                assert(m0.objects =~= ms.objects.subrange(0, m0.objects.len() as int));
            }
            lemma_find_class_push(m0.objects, Obj::Str(pv), "NSFileManager"@);
            lemma_find_manager_push(m0.objects, Obj::Str(pv));
            if find_manager(ms.objects) >= 0 {
                lemma_find_manager_bounds(ms.objects);
            }
            if consumer_ready(m0) {
                assert(obj_at(md, fm.0) == Some(Obj::Manager));
                assert(obj_at(md, p_obj) == Some(Obj::Str(pv)));
            } else {
                assert(fm.0.is_null());
                assert(obj_at(md, fm.0) is None);
            }
        } else {
            assert(p_obj.is_null());
            assert(obj_at(md, p_obj) is None);
            assert(listing_entries(md, p_obj) is None);
        }
    }
    let listing = fm.contentsOfDirectory(rt, p_obj, ObjcObject::null());
    let ghost ml = rt@;
    proof {
        assert(md.objects.is_prefix_of(ml.objects)) by {
            assert(md.objects =~= ml.objects.subrange(0, md.objects.len() as int));
        }
        assert(m0.objects.is_prefix_of(ml.objects)) by {
            assert(m0.objects =~= ml.objects.subrange(0, m0.objects.len() as int));
        }
        if consumer_ready(m0) {
            assert(listing_entries(md, p_obj) == dir_lookup(m0.dirs, pv));
        } else {
            assert(listing.is_null());
        }
        crate::model::lemma_reg_sel_extends(m0.selectors, crate::model::sel_string_with_utf8());
        crate::model::lemma_reg_sel_extends(ms.selectors, crate::model::sel_default_manager());
        crate::model::lemma_reg_sel_extends(
            md.selectors,
            crate::model::sel_contents_of_directory(),
        );
        lemma_prefix_trans(m0.selectors, ms.selectors, md.selectors);
        lemma_prefix_trans(m0.selectors, md.selectors, ml.selectors);
    }
    listing
}

/// Whether `path` is a directory, decided by listing the path and
/// looking at whether the answer is null, with no type-attribute
/// check.  On a ready store the answer
/// is exactly whether the tree knows the path.  The tree is never
/// changed; the store only grows.
fn is_dir_chars(rt: &mut Runtime, path: &[char]) -> (r: bool)
    ensures
        final(rt)@.dirs == old(rt)@.dirs,
        old(rt)@.objects.is_prefix_of(final(rt)@.objects),
        old(rt)@.selectors.is_prefix_of(final(rt)@.selectors),
        r == (consumer_ready(old(rt)@) && dir_lookup(old(rt)@.dirs, path@) is Some),
{
    let listing = list_path(rt, slice_to_vec(path));
    !listing.is_null()
}

/// `is_dir_chars` over a text path.  The path must be transportable:
/// no terminator inside it.
pub fn is_directory(rt: &mut Runtime, path: &str) -> (r: bool)
    requires
        no_nul(path@),
    ensures
        final(rt)@.dirs == old(rt)@.dirs,
        old(rt)@.objects.is_prefix_of(final(rt)@.objects),
        old(rt)@.selectors.is_prefix_of(final(rt)@.selectors),
        r == (consumer_ready(old(rt)@) && dir_lookup(old(rt)@.dirs, path@) is Some),
{
    let cs = chars_of(path);
    is_dir_chars(rt, cs.as_slice())
}

/// The depth-first walk, over a character path.
#[verifier::loop_isolation(false)]
fn walk_chars(rt: &mut Runtime, path: Vec<char>, depth: usize) -> (out: Vec<WalkEntry>)
    requires
        depth + max_path_len(old(rt)@.dirs) + 1 - path@.len() <= usize::MAX,
    ensures
        final(rt)@.dirs == old(rt)@.dirs,
        old(rt)@.objects.is_prefix_of(final(rt)@.objects),
        old(rt)@.selectors.is_prefix_of(final(rt)@.selectors),
        consumer_ready(old(rt)@) ==> entries_view(out@) == sim_walk(
            old(rt)@.dirs,
            path@,
            depth as int,
        ),
        !consumer_ready(old(rt)@) ==> out@.len() == 0,
    decreases max_path_len(old(rt)@.dirs) + 1 - path@.len(),
{
    let ghost m0 = rt@;
    let listing = list_path(rt, crate::runtime::clone_chars(&path));
    let ghost ml = rt@;
    let mut out: Vec<WalkEntry> = Vec::new();
    if listing.is_null() {
        proof {
            if consumer_ready(m0) {
                assert(dir_lookup(m0.dirs, path@) is None);
                assert(sim_walk(m0.dirs, path@, depth as int) =~= Seq::empty());
                assert(entries_view(out@) =~= Seq::empty());
            }
        }
        return out;
    }
    proof {
        assert(consumer_ready(m0));
        assert(dir_lookup(m0.dirs, path@) is Some);
    }
    let ghost entries = dir_lookup(m0.dirs, path@)->Some_0;
    proof {
        lemma_lookup_len_bound(m0.dirs, path@);
    }
    let n = crate::file_manager::count(rt, listing);
    let ghost full = sim_walk_entries(m0.dirs, path@, entries, depth as int, 0);
    proof {
        assert(spec_count(ml, listing) == entries.len() as u64);
        assert(n == entries.len() as u64);
        assert(entries.len() <= u64::MAX);
        assert(listing.addr == ml.objects.len());
        assert(entries_view(out@) + sim_walk_entries(m0.dirs, path@, entries, depth as int, 0)
            =~= full);
    }
    let mut i: u64 = 0;
    while i < n
        invariant
            i <= n,
            rt@.dirs == m0.dirs,
            ml.objects.is_prefix_of(rt@.objects),
            ml.selectors.is_prefix_of(rt@.selectors),
            entries_view(out@) + sim_walk_entries(m0.dirs, path@, entries, depth as int, i as int)
                == full,
        decreases n - i,
    {
        let ghost m_iter = rt@;
        proof {
            let ii = i as int;
            assert(ii < entries.len());
            lemma_prefix_obj_at(ml, rt@, listing);
            assert((ii as u64) == i);
            assert(!spec_element(ml, listing, ii as u64).is_null());
            assert(path_text(ml, spec_element(ml, listing, ii as u64)) == Some(entries[ii]));
            assert(spec_element(rt@, listing, i) == spec_element(ml, listing, i));
        }
        let e_handle = crate::file_manager::objectAtIndex(rt, listing, i);
        proof {
            assert(e_handle == spec_element(ml, listing, i));
            assert(e_handle.addr <= ml.objects.len());
            lemma_prefix_obj_at(ml, rt@, e_handle);
            assert(path_text(rt@, e_handle) == Some(entries[i as int]));
            crate::model::lemma_reg_sel_extends(
                m_iter.selectors,
                crate::model::sel_object_at_index(),
            );
            lemma_prefix_trans(ml.selectors, m_iter.selectors, rt@.selectors);
        }
        let ghost m_at = rt@;
        let name = crate::file_manager::UTF8String(rt, e_handle);
        proof {
            assert(name@ == entries[i as int]);
            crate::model::lemma_reg_sel_extends(m_at.selectors, crate::model::sel_utf8_string());
            lemma_prefix_trans(ml.selectors, m_at.selectors, rt@.selectors);
        }
        out.push(WalkEntry { name: crate::runtime::clone_chars(&name), depth });
        let child = child_join(path.as_slice(), name.as_slice());
        let ghost mq = rt@;
        let is_dir = is_dir_chars(rt, child.as_slice());
        proof {
            assert(m0.objects.is_prefix_of(mq.objects)) by {
                assert(ml.objects.is_prefix_of(mq.objects));
            }
            lemma_consumer_ready_prefix(m0, mq);
            assert(is_dir == (dir_lookup(m0.dirs, child@) is Some));
            lemma_prefix_trans(ml.selectors, mq.selectors, rt@.selectors);
        }
        let ghost sub_spec = if dir_lookup(m0.dirs, child@) is Some {
            sim_walk(m0.dirs, child@, depth as int + 1)
        } else {
            Seq::<(Seq<char>, int)>::empty()
        };
        if is_dir {
            proof {
                lemma_lookup_len_bound(m0.dirs, child@);
                assert(child@.len() >= path@.len() + 1);
                lemma_consumer_ready_prefix(m0, rt@);
            }
            let ghost m_rec = rt@;
            let mut sub = walk_chars(rt, child, depth + 1);
            let ghost subv = sub@;
            proof {
                lemma_prefix_trans(ml.selectors, m_rec.selectors, rt@.selectors);
                lemma_prefix_trans(ml.objects, m_rec.objects, rt@.objects);
            }
            proof {
                assert(entries_view(subv) == sub_spec);
            }
            let ghost out_before = out@;
            out.append(&mut sub);
            proof {
                assert(entries_view(out@) =~= entries_view(out_before) + entries_view(subv));
            }
        }
        proof {
            assert(sim_walk_entries(m0.dirs, path@, entries, depth as int, i as int) == seq![
                (entries[i as int], depth as int),
            ] + sub_spec + sim_walk_entries(
                m0.dirs,
                path@,
                entries,
                depth as int,
                i as int + 1,
            ));
            assert(entries_view(out@) + sim_walk_entries(
                m0.dirs,
                path@,
                entries,
                depth as int,
                i as int + 1,
            ) =~= full);
            assert(ml.objects.is_prefix_of(rt@.objects));
            assert(ml.selectors.is_prefix_of(rt@.selectors));
        }
        i = i + 1;
    }
    proof {
        assert(sim_walk_entries(m0.dirs, path@, entries, depth as int, n as int)
            =~= Seq::<(Seq<char>, int)>::empty());
        assert(entries_view(out@) =~= full);
        assert(sim_walk(m0.dirs, path@, depth as int) == full);
        assert(m0.objects.is_prefix_of(rt@.objects));
        lemma_prefix_trans(m0.selectors, ml.selectors, rt@.selectors);
    }
    out
}

/// Walks the tree from `path`, depth first: every entry of every
/// directory the walk reaches, with the depth it was seen at — exactly
/// `sim_walk` of the tree.  An unknown starting path yields nothing;
/// an entry is recursed into exactly when listing it succeeds.  The
/// tree is never changed; the store only grows.  The depth bound is a
/// machine limit: the recursion adds one per level and levels are
/// bounded by the longest path the tree knows.
pub fn recursive_walk(rt: &mut Runtime, path: &str, depth: usize) -> (out: Vec<WalkEntry>)
    requires
        no_nul(path@),
        depth + max_path_len(old(rt)@.dirs) + 1 - path@.len() <= usize::MAX,
    ensures
        final(rt)@.dirs == old(rt)@.dirs,
        old(rt)@.objects.is_prefix_of(final(rt)@.objects),
        old(rt)@.selectors.is_prefix_of(final(rt)@.selectors),
        consumer_ready(old(rt)@) ==> entries_view(out@) == sim_walk(
            old(rt)@.dirs,
            path@,
            depth as int,
        ),
        !consumer_ready(old(rt)@) ==> out@.len() == 0,
{
    let cs = chars_of(path);
    walk_chars(rt, cs, depth)
}

} // verus!
