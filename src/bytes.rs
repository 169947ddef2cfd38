//! Small operations on byte strings.
use vstd::prelude::*;

verus! {

/// The `len` bytes of `s` from `start` on.
pub open spec fn window(s: Seq<u8>, start: int, len: nat) -> Seq<u8> {
    Seq::new(len, |i: int| s[start + i])
}

/// `a || b`.
pub fn concat(a: &Vec<u8>, b: &Vec<u8>) -> (r: Vec<u8>)
    requires
        a@.len() + b@.len() <= usize::MAX,
    ensures
        r@ == a@ + b@,
{
    let mut r: Vec<u8> = Vec::new();
    let mut i: usize = 0;
    while i < a.len()
        invariant
            i <= a@.len(),
            r@ == a@.subrange(0, i as int),
        decreases a@.len() - i,
    {
        r.push(a[i]);
        i = i + 1;
        assert(r@ =~= a@.subrange(0, i as int));
    }
    let mut j: usize = 0;
    while j < b.len()
        invariant
            j <= b@.len(),
            r@ == a@ + b@.subrange(0, j as int),
        decreases b@.len() - j,
    {
        r.push(b[j]);
        j = j + 1;
        assert(r@ =~= a@ + b@.subrange(0, j as int));
    }
    assert(b@.subrange(0, b@.len() as int) =~= b@);
    r
}

/// `a[start..end]` as a new vector.
pub fn slice(a: &[u8], start: usize, end: usize) -> (r: Vec<u8>)
    requires
        start <= end <= a@.len(),
    ensures
        r@ == a@.subrange(start as int, end as int),
{
    let mut r: Vec<u8> = Vec::new();
    let mut i: usize = start;
    while i < end
        invariant
            start <= i <= end,
            end <= a@.len(),
            r@ == a@.subrange(start as int, i as int),
        decreases end - i,
    {
        r.push(a[i]);
        i = i + 1;
        assert(r@ =~= a@.subrange(start as int, i as int));
    }
    r
}

/// Whether two byte strings are equal, reading every byte of both whatever
/// their contents.
pub fn bytes_equal(a: &Vec<u8>, b: &Vec<u8>) -> (r: bool)
    ensures
        r == (a@ == b@),
{
    if a.len() != b.len() {
        return false;
    }
    let mut diff: bool = false;
    let mut i: usize = 0;
    while i < a.len()
        invariant
            a@.len() == b@.len(),
            i <= a@.len(),
            diff == exists|t: int| 0 <= t < i && a@[t] != b@[t],
        decreases a@.len() - i,
    {
        let d = a[i] != b[i];
        diff = diff || d;
        i = i + 1;
    }
    if !diff {
        assert(a@ =~= b@);
    }
    !diff
}

/// `if pick_a { a } else { b }`, reading every byte of both.
pub fn select(pick_a: bool, a: &Vec<u8>, b: &Vec<u8>) -> (r: Vec<u8>)
    requires
        a@.len() == b@.len(),
    ensures
        r@ == (if pick_a { a@ } else { b@ }),
{
    let mut r: Vec<u8> = Vec::new();
    let mut i: usize = 0;
    while i < a.len()
        invariant
            a@.len() == b@.len(),
            i <= a@.len(),
            r@ == (if pick_a { a@ } else { b@ }).subrange(0, i as int),
        decreases a@.len() - i,
    {
        let x = if pick_a { a[i] } else { b[i] };
        r.push(x);
        i = i + 1;
        assert(r@ =~= (if pick_a { a@ } else { b@ }).subrange(0, i as int));
    }
    assert(r@ =~= (if pick_a { a@ } else { b@ }));
    r
}

} // verus!
