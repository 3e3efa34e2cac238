//! Byte-level helpers for file system paths.

use crate::text::{first_index, lemma_first_index_is, starts_with, string_of};
use vstd::prelude::*;
use vstd::slice::slice_subrange;

verus! {

/// Whether two slices hold the same bytes.
pub fn same_bytes(a: &[u8], b: &[u8]) -> (r: bool)
    ensures
        r == (a@ == b@),
{
    if a.len() != b.len() {
        return false;
    }
    let mut i: usize = 0;
    while i < a.len()
        invariant
            i <= a.len(),
            a.len() == b.len(),
            a@.take(i as int) == b@.take(i as int),
        decreases a.len() - i,
    {
        if a[i] != b[i] {
            return false;
        }
        i += 1;
        assert(a@.take(i as int) == a@.take(i - 1).push(a@[i - 1]));
        assert(b@.take(i as int) == b@.take(i - 1).push(b@[i - 1]));
    }
    assert(a@.take(a.len() as int) == a@);
    assert(b@.take(b.len() as int) == b@);
    true
}

/// Index of the first byte `c` in `v`, or the length of `v`.
pub fn find_byte(v: &[u8], c: u8) -> (i: usize)
    ensures
        i == first_index(v@, c),
        i <= v.len(),
{
    let mut i: usize = 0;
    while i < v.len() && v[i] != c
        invariant
            i <= v.len(),
            forall|j: int| 0 <= j < i ==> v@[j] != c,
        decreases v.len() - i,
    {
        i += 1;
    }
    proof {
        lemma_first_index_is(v@, c, i as int);
    }
    i
}

/// Whether `v` begins with `p`.
pub fn bytes_start_with(v: &[u8], p: &[u8]) -> (r: bool)
    ensures
        r == starts_with(v@, p@),
{
    if p.len() > v.len() {
        return false;
    }
    let head = slice_subrange(v, 0, p.len());
    assert(head@ =~= v@.take(p.len() as int));
    same_bytes(head, p)
}

/// The characters of an ASCII byte sequence.
pub open spec fn ascii_chars(b: Seq<u8>) -> Seq<char> {
    b.map_values(|x: u8| x as char)
}

/// The string whose characters are the bytes of `b`, each taken as the
/// character with that number.
pub fn ascii_string(b: &[u8]) -> (s: String)
    ensures
        s@ == ascii_chars(b@),
{
    let mut v: Vec<char> = Vec::new();
    let mut i: usize = 0;
    while i < b.len()
        invariant
            i <= b.len(),
            v@.len() == i,
            forall|j: int| 0 <= j < i ==> v@[j] == b@[j] as char,
        decreases b.len() - i,
    {
        v.push(b[i] as char);
        i += 1;
    }
    assert(v@ =~= ascii_chars(b@));
    string_of(v.as_slice())
}

} // verus!
