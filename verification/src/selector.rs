//! Selector names.
//!
//! A selector name is a sequence of characters in which each labelled
//! argument position ends in a colon; a zero-argument selector has no
//! colon.  Before a name is handed to the foreign runtime it must carry
//! the runtime's terminator exactly once at its end, however many
//! colon-delimited segments it already has, and whether or not the
//! caller already supplied the terminator.

use vstd::prelude::*;
use vstd::slice::{slice_index_get, slice_to_vec};
use vstd::string::StrSliceExecFns;

verus! {

/// The terminator the foreign runtime requires at the end of a name.
pub open spec fn terminator() -> char {
    '\u{0}'
}

/// `s` with the terminator supplied exactly once: unchanged when it
/// already ends in the terminator, extended by one otherwise.
pub open spec fn spec_terminated(s: Seq<char>) -> Seq<char> {
    if s.len() > 0 && s.last() == terminator() {
        s
    } else {
        s.push(terminator())
    }
}

/// No terminator anywhere but possibly at the very end.  A name with an
/// interior terminator cannot be transported to the runtime at all.
pub open spec fn nul_free(s: Seq<char>) -> bool {
    forall|i: int| 0 <= i < s.len() - 1 ==> s[i] != terminator()
}

/// How many labelled argument positions the name declares.
pub open spec fn colon_count(s: Seq<char>) -> nat
    decreases s.len(),
{
    if s.len() == 0 {
        0
    } else {
        colon_count(s.drop_last()) + if s.last() == ':' {
            1nat
        } else {
            0nat
        }
    }
}

/// Supplying the terminator is idempotent: a name that was terminated
/// once is not terminated again.
pub proof fn lemma_terminated_idempotent(s: Seq<char>)
    ensures
        spec_terminated(spec_terminated(s)) == spec_terminated(s),
{
    if !(s.len() > 0 && s.last() == terminator()) {
        assert(s.push(terminator()).last() == terminator());
    }
}

/// The characters of `s`, as a vector.
pub fn chars_of(s: &str) -> (r: Vec<char>)
    ensures
        r@ == s@,
{
    let n = s.unicode_len();
    let mut r: Vec<char> = Vec::new();
    let mut i: usize = 0;
    while i < n
        invariant
            n == s@.len(),
            i <= n,
            r@ =~= s@.take(i as int),
        decreases n - i,
    {
        r.push(s.get_char(i));
        i = i + 1;
    }
    proof {
        assert(r@ =~= s@);
    }
    r
}

/// Character-wise equality of two names.
pub fn chars_eq(a: &[char], b: &[char]) -> (r: bool)
    ensures
        r == (a@ == b@),
{
    if a.len() != b.len() {
        proof {
            assert(a@ != b@);
        }
        return false;
    }
    let n = a.len();
    let mut i: usize = 0;
    while i < n
        invariant
            n == a@.len() && n == b@.len(),
            i <= n,
            forall|j: int| 0 <= j < i ==> a@[j] == b@[j],
        decreases n - i,
    {
        if *slice_index_get(a, i) != *slice_index_get(b, i) {
            proof {
                assert(a@[i as int] != b@[i as int]);
            }
            return false;
        }
        i = i + 1;
    }
    proof {
        assert(a@ =~= b@);
    }
    true
}

/// `name` with the runtime's terminator supplied exactly once.
pub fn terminated(name: &[char]) -> (r: Vec<char>)
    ensures
        r@ == spec_terminated(name@),
{
    let mut v: Vec<char> = slice_to_vec(name);
    let n = v.len();
    if n == 0 || *slice_index_get(v.as_slice(), n - 1) != '\u{0}' {
        v.push('\u{0}');
        proof {
            assert(v@ =~= spec_terminated(name@));
        }
    } else {
        proof {
            assert(name@.last() == terminator());
        }
    }
    v
}

/// The number of labelled argument positions in `name`: its colon count.
pub fn arity(name: &[char]) -> (r: usize)
    ensures
        r == colon_count(name@),
{
    let n = name.len();
    let mut count: usize = 0;
    let mut i: usize = 0;
    while i < n
        invariant
            n == name@.len(),
            i <= n,
            count == colon_count(name@.take(i as int)),
            count <= i,
        decreases n - i,
    {
        proof {
            assert(name@.take(i + 1).drop_last() =~= name@.take(i as int));
            assert(name@.take(i + 1).last() == name@[i as int]);
        }
        if *slice_index_get(name, i) == ':' {
            count = count + 1;
        }
        i = i + 1;
    }
    proof {
        assert(name@.take(n as int) =~= name@);
    }
    count
}

/// Whether `name` can be transported to the runtime: the terminator
/// occurs nowhere but possibly at the end.
pub fn is_nul_free(name: &[char]) -> (r: bool)
    ensures
        r == nul_free(name@),
{
    let n = name.len();
    if n == 0 {
        return true;
    }
    let mut i: usize = 0;
    while i < n - 1
        invariant
            n == name@.len(),
            n >= 1,
            i <= n - 1,
            forall|j: int| 0 <= j < i ==> name@[j] != terminator(),
        decreases n - i,
    {
        if *slice_index_get(name, i) == '\u{0}' {
            proof {
                assert(!nul_free(name@));
            }
            return false;
        }
        i = i + 1;
    }
    true
}

} // verus!
