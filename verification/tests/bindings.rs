use macwalk::descriptor::{synthesize_signature, MethodDescriptor, ReceiverKind, TypeTag};
use macwalk::file_manager::{
    count, nextObject, objectAtIndex, objectEnumerator, NSFileManager, NSString, UTF8String,
};
use macwalk::generator::invoke_constructor;
use macwalk::runtime::{dispatch, CallFrame, Runtime, Value};
use macwalk::selector::{arity, chars_of, terminated};
use macwalk::{get_class, register_name, ObjcObject};

fn chars(s: &str) -> Vec<char> {
    s.chars().collect()
}

fn text_of(v: Vec<char>) -> String {
    v.into_iter().collect()
}

fn listing_of(rt: &mut Runtime, path: &str) -> ObjcObject {
    let p = NSString(rt, path);
    let fm = NSFileManager::default(rt);
    fm.contentsOfDirectory(rt, p, ObjcObject::null())
}

#[test]
fn generated_call_has_receiver_selector_then_declared_args() {
    let mut params: Vec<TypeTag> = Vec::new();
    params.push(TypeTag::Obj);
    params.push(TypeTag::OutObj);
    let d = MethodDescriptor {
        selector_name: chars("contentsOfDirectoryAtPath:error:"),
        receiver: ReceiverKind::Instance,
        params,
        ret: TypeTag::Obj,
    };
    assert!(d.validate());
    let sig = synthesize_signature(&d);
    assert_eq!(sig.len(), 2 + 2);
    assert_eq!(sig[0], TypeTag::Obj);
    assert_eq!(sig[1], TypeTag::Sel);
    assert_eq!(sig[2], TypeTag::Obj);
    assert_eq!(sig[3], TypeTag::OutObj);
}

#[test]
fn zero_argument_binding_synthesizes_two_slots() {
    let d = MethodDescriptor {
        selector_name: chars("count"),
        receiver: ReceiverKind::Instance,
        params: Vec::new(),
        ret: TypeTag::ULong,
    };
    assert!(d.validate());
    let sig = synthesize_signature(&d);
    assert_eq!(sig.len(), 2);
    assert_eq!(sig[0], TypeTag::Obj);
    assert_eq!(sig[1], TypeTag::Sel);
}

#[test]
fn stub_dispatch_receives_the_supplied_values() {
    // Drive the generic dispatch entry point directly with a hand-built
    // frame and check the values it acted on are the ones supplied.
    let mut rt = Runtime::new();
    rt.add_directory(".", vec!["first".to_string(), "second".to_string()]);
    let listing = listing_of(&mut rt, ".");
    assert!(!listing.is_null());
    let sel = register_name(&mut rt, "objectAtIndex:");
    let frame = CallFrame {
        receiver: listing,
        selector: sel,
        args: vec![Value::ULong(1)],
    };
    let answer = dispatch(&mut rt, &frame);
    let handle = match answer {
        Value::Obj(h) => h,
        _ => panic!("dispatch did not answer a handle"),
    };
    assert!(!handle.is_null());
    assert_eq!(text_of(UTF8String(&mut rt, handle)), "second");
}

#[test]
fn descriptor_with_wrong_arity_is_invalid() {
    let d = MethodDescriptor {
        selector_name: chars("contentsOfDirectoryAtPath:error:"),
        receiver: ReceiverKind::Instance,
        params: vec![TypeTag::Obj],
        ret: TypeTag::Obj,
    };
    assert!(!d.validate());
}

#[test]
fn selector_arity_counts_colons() {
    assert_eq!(arity(&chars("contentsOfDirectoryAtPath:error:")), 2);
    assert_eq!(arity(&chars("stringWithUTF8String:")), 1);
    assert_eq!(arity(&chars("count")), 0);
}

#[test]
fn terminator_is_supplied_exactly_once() {
    assert_eq!(terminated(&chars("count")), chars("count\u{0}"));
    assert_eq!(terminated(&chars("count\u{0}")), chars("count\u{0}"));
    assert_eq!(terminated(&[]), vec!['\u{0}']);
}

#[test]
fn selector_resolution_is_idempotent() {
    let mut rt = Runtime::new();
    let s1 = register_name(&mut rt, "objectAtIndex:");
    let s2 = register_name(&mut rt, "objectAtIndex:");
    assert_eq!(s1, s2);
    assert!(!s1.is_null());
}

#[test]
fn pre_terminated_name_resolves_to_the_same_selector() {
    let mut rt = Runtime::new();
    let s1 = register_name(&mut rt, "count");
    let s2 = register_name(&mut rt, "count\u{0}");
    assert_eq!(s1, s2);
}

#[test]
fn class_lookup_miss_is_null() {
    let mut rt = Runtime::new();
    assert!(get_class(&rt, "NSBogusClass").is_null());
    assert!(!get_class(&rt, "NSString").is_null());
    assert!(!get_class(&rt, "NSFileManager").is_null());
}

#[test]
fn constructor_on_unknown_class_yields_null_not_a_crash() {
    let mut rt = Runtime::new();
    let d = MethodDescriptor {
        selector_name: chars("defaultManager"),
        receiver: ReceiverKind::Class(chars("NSBogusClass")),
        params: Vec::new(),
        ret: TypeTag::Obj,
    };
    assert!(d.validate());
    let h = invoke_constructor(&mut rt, &d, Vec::new());
    assert!(h.is_null());
}

#[test]
fn string_constructor_roundtrips_utf8() {
    let mut rt = Runtime::new();
    let h = NSString(&mut rt, "h\u{e9}llo \u{1F5C2}");
    assert!(!h.is_null());
    assert_eq!(text_of(UTF8String(&mut rt, h)), "h\u{e9}llo \u{1F5C2}");
}

#[test]
fn count_on_empty_collection_is_zero() {
    let mut rt = Runtime::new();
    rt.add_directory("empty", Vec::new());
    let listing = listing_of(&mut rt, "empty");
    assert!(!listing.is_null());
    assert_eq!(count(&mut rt, listing), 0);
}

#[test]
fn elements_below_count_are_non_null_and_null_beyond() {
    let mut rt = Runtime::new();
    rt.add_directory(
        "d",
        vec!["a".to_string(), "b".to_string(), "c".to_string()],
    );
    let listing = listing_of(&mut rt, "d");
    let n = count(&mut rt, listing);
    assert_eq!(n, 3);
    for i in 0..n {
        assert!(!objectAtIndex(&mut rt, listing, i).is_null());
    }
    assert!(objectAtIndex(&mut rt, listing, n).is_null());
}

#[test]
fn enumerator_exhausts_to_null_and_stays_null() {
    let mut rt = Runtime::new();
    rt.add_directory("d", vec!["a".to_string(), "b".to_string()]);
    let listing = listing_of(&mut rt, "d");
    let e = objectEnumerator(&mut rt, listing);
    assert!(!e.is_null());
    assert!(!nextObject(&mut rt, e).is_null());
    assert!(!nextObject(&mut rt, e).is_null());
    assert!(nextObject(&mut rt, e).is_null());
    assert!(nextObject(&mut rt, e).is_null());
}

#[test]
fn enumerator_yields_the_elements_in_order() {
    let mut rt = Runtime::new();
    rt.add_directory("d", vec!["a".to_string(), "b".to_string()]);
    let listing = listing_of(&mut rt, "d");
    let e = objectEnumerator(&mut rt, listing);
    let first = nextObject(&mut rt, e);
    let second = nextObject(&mut rt, e);
    assert_eq!(text_of(UTF8String(&mut rt, first)), "a");
    assert_eq!(text_of(UTF8String(&mut rt, second)), "b");
}

#[test]
fn listing_a_directory_yields_its_entries_as_a_set() {
    let mut rt = Runtime::new();
    rt.add_directory(".", vec!["a.txt".to_string(), "b".to_string()]);
    let listing = listing_of(&mut rt, ".");
    assert!(!listing.is_null());
    let n = count(&mut rt, listing);
    assert_eq!(n, 2);
    let mut names: Vec<String> = Vec::new();
    for i in 0..n {
        let h = objectAtIndex(&mut rt, listing, i);
        assert!(!h.is_null());
        names.push(text_of(UTF8String(&mut rt, h)));
    }
    names.sort();
    assert_eq!(names, vec!["a.txt".to_string(), "b".to_string()]);
}

#[test]
fn listing_a_nonexistent_path_yields_null() {
    let mut rt = Runtime::new();
    rt.add_directory(".", vec!["a.txt".to_string()]);
    let listing = listing_of(&mut rt, "no/such/path");
    assert!(listing.is_null());
}

#[test]
fn unknown_message_is_answered_by_null() {
    let mut rt = Runtime::new();
    let h = NSString(&mut rt, "abc");
    let sel = register_name(&mut rt, "somethingElse");
    let frame = CallFrame { receiver: h, selector: sel, args: Vec::new() };
    match dispatch(&mut rt, &frame) {
        Value::Obj(r) => assert!(r.is_null()),
        _ => panic!("unknown message must answer a null handle"),
    }
}
