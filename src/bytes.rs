use vstd::prelude::*;

verus! {
/// Byte-wise equality of two byte strings.
pub fn bytes_eq(a: &Vec<u8>, b: &Vec<u8>) -> (r: bool)
    ensures
        r == (a@ == b@),
{
    if a.len() != b.len() {
        return false;
    }
    let mut i: usize = 0;
    while i < a.len()
        invariant
            a.len() == b.len(),
            i <= a.len(),
            forall|j: int| 0 <= j < i ==> a@[j] == b@[j],
        decreases a.len() - i,
    {
        if a[i] != b[i] {
            return false;
        }
        i = i + 1;
    }
    assert(a@ =~= b@);
    true
}

/// Position of `x` in `v`, if it occurs there.
pub fn find_bytes(v: &Vec<Vec<u8>>, x: &Vec<u8>) -> (r: Option<usize>)
    ensures
        match r {
            Some(i) => i < v.len() && v@[i as int]@ == x@
                && forall|j: int| 0 <= j < i ==> v@[j]@ != x@,
            None => forall|j: int| 0 <= j < v.len() ==> v@[j]@ != x@,
        },
{
    let mut i: usize = 0;
    while i < v.len()
        invariant
            i <= v.len(),
            forall|j: int| 0 <= j < i ==> v@[j]@ != x@,
        decreases v.len() - i,
    {
        if bytes_eq(&v[i], x) {
            return Some(i);
        }
        i = i + 1;
    }
    None
}
} // verus!
