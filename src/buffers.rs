use vstd::prelude::*;

verus! {

/// The source buffer of length `len`: element `i` holds the value `i`.
pub open spec fn counting(len: nat) -> Seq<u64> {
    Seq::new(len, |i: int| i as u64)
}

/// The destination buffer of length `len`: all zeros.
pub open spec fn zeros(len: nat) -> Seq<u64> {
    Seq::new(len, |i: int| 0u64)
}

/// Builds the source buffer `0, 1, 2, ..., len - 1`.
pub fn source_buffer(len: usize) -> (v: Vec<u64>)
    ensures
        v@ == counting(len as nat),
{
    let mut v: Vec<u64> = Vec::with_capacity(len);
    let mut i: usize = 0;
    while i < len
        invariant
            0 <= i <= len,
            v@ == counting(i as nat),
        decreases len - i,
    {
        v.push(i as u64);
        i = i + 1;
        assert(v@ =~= counting(i as nat));
    }
    v
}

/// Builds the destination buffer: `len` zeros.
pub fn destination_buffer(len: usize) -> (v: Vec<u64>)
    ensures
        v@ == zeros(len as nat),
{
    let mut v: Vec<u64> = Vec::with_capacity(len);
    let mut i: usize = 0;
    while i < len
        invariant
            0 <= i <= len,
            v@ == zeros(i as nat),
        decreases len - i,
    {
        v.push(0u64);
        i = i + 1;
        assert(v@ =~= zeros(i as nat));
    }
    v
}

/// Whether the two buffers hold the same elements at every index.
pub fn buffers_match(a: &[u64], b: &[u64]) -> (r: bool)
    ensures
        r == (a@ == b@),
{
    if a.len() != b.len() {
        return false;
    }
    let mut i: usize = 0;
    while i < a.len()
        invariant
            0 <= i <= a@.len(),
            a@.len() == b@.len(),
            forall|j: int| 0 <= j < i ==> a@[j] == b@[j],
        decreases a@.len() - i,
    {
        if a[i] != b[i] {
            return false;
        }
        i = i + 1;
    }
    assert(a@ =~= b@);
    true
}

} // verus!
