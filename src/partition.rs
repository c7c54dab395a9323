use vstd::prelude::*;

verus! {

/// Offset at which chunk `i` of a buffer of length `len` cut into `n` chunks begins.
pub open spec fn chunk_start(len: int, n: int, i: int) -> int {
    i * (len / n)
}

/// Offset at which chunk `i` ends: every chunk but the last is `len / n` long,
/// and the last one runs to the end of the buffer.
pub open spec fn chunk_end(len: int, n: int, i: int) -> int {
    if i == n - 1 {
        len
    } else {
        (i + 1) * (len / n)
    }
}

/// The elements of `s` that chunk `i` of `n` covers.
pub open spec fn chunk_of<T>(s: Seq<T>, n: int, i: int) -> Seq<T> {
    s.subrange(chunk_start(s.len() as int, n, i), chunk_end(s.len() as int, n, i))
}

pub(crate) proof fn lemma_prefix_fits(len: int, n: int, i: int)
    requires
        1 <= n <= len,
        0 <= i < n,
    ensures
        0 <= i * (len / n),
        (i + 1) * (len / n) <= len,
        (i + 1) * (len / n) == i * (len / n) + len / n,
{
    assert((i + 1) * (len / n) == i * (len / n) + len / n) by (nonlinear_arith);
    assert(0 <= i * (len / n)) by (nonlinear_arith)
        requires
            0 <= i,
            1 <= n <= len,
    ;
    assert((i + 1) * (len / n) <= n * (len / n)) by (nonlinear_arith)
        requires
            0 <= i < n,
            1 <= n <= len,
    ;
    assert(n * (len / n) <= len) by (nonlinear_arith)
        requires
            1 <= n <= len,
    ;
}

/// Total length of the first `k` chunks.
pub open spec fn covered(len: int, n: int, k: int) -> int
    decreases k,
{
    if k <= 0 {
        0
    } else {
        covered(len, n, k - 1) + (chunk_end(len, n, k - 1) - chunk_start(len, n, k - 1))
    }
}

proof fn lemma_covered(len: int, n: int, k: int)
    requires
        1 <= n <= len,
        1 <= k <= n,
    ensures
        covered(len, n, k) == chunk_end(len, n, k - 1),
    decreases k,
{
    if k > 1 {
        lemma_covered(len, n, k - 1);
        assert(chunk_start(len, n, k - 1) == (k - 1) * (len / n));
    } else {
        assert(covered(len, n, 0) == 0);
        assert(0 * (len / n) == 0);
    }
}

/// Cutting a buffer of length `len` into `n` chunks, with `1 <= n <= len`, covers
/// every index exactly once: the chunks start at 0, each one ends where the next
/// begins, none is empty, the last ends at `len`, and their lengths add up to
/// `len`. All but the last are `len / n` long; the last is
/// `len - (n - 1) * (len / n)` long, never shorter than the others.
pub proof fn lemma_partition_coverage(len: int, n: int)
    requires
        1 <= n <= len,
    ensures
        chunk_start(len, n, 0) == 0,
        chunk_end(len, n, n - 1) == len,
        forall|i: int|
            0 <= i < n - 1 ==> chunk_end(len, n, i) == #[trigger] chunk_start(len, n, i + 1),
        forall|i: int, j: int|
            0 <= i < j < n ==> #[trigger] chunk_end(len, n, i) <= #[trigger] chunk_start(len, n, j),
        forall|i: int| 0 <= i < n ==> #[trigger] chunk_start(len, n, i) < chunk_end(len, n, i),
        forall|i: int|
            0 <= i < n - 1 ==> #[trigger] chunk_end(len, n, i) - chunk_start(len, n, i) == len / n,
        chunk_end(len, n, n - 1) - chunk_start(len, n, n - 1) == len - (n - 1) * (len / n),
        len - (n - 1) * (len / n) >= len / n,
        covered(len, n, n) == len,
{
    let base = len / n;
    assert(base >= 1) by (nonlinear_arith)
        requires
            1 <= n <= len,
            base == len / n,
    ;
    assert forall|i: int| 0 <= i < n - 1 implies chunk_end(len, n, i) == #[trigger] chunk_start(
        len,
        n,
        i + 1,
    ) by {}
    assert forall|i: int, j: int| 0 <= i < j < n implies #[trigger] chunk_end(len, n, i)
        <= #[trigger] chunk_start(len, n, j) by {
        lemma_prefix_fits(len, n, i);
        assert((i + 1) * base <= j * base) by (nonlinear_arith)
            requires
                i + 1 <= j,
                base >= 1,
        ;
    }
    assert forall|i: int| 0 <= i < n implies #[trigger] chunk_start(len, n, i) < chunk_end(
        len,
        n,
        i,
    ) by {
        lemma_prefix_fits(len, n, i);
    }
    assert forall|i: int| 0 <= i < n - 1 implies #[trigger] chunk_end(len, n, i) - chunk_start(
        len,
        n,
        i,
    ) == len / n by {
        lemma_prefix_fits(len, n, i);
    }
    lemma_prefix_fits(len, n, n - 1);
    lemma_covered(len, n, n);
}

proof fn lemma_chunks_prefix<T>(s: Seq<T>, n: int, k: int)
    requires
        1 <= n <= s.len(),
        0 <= k <= n - 1,
    ensures
        0 <= k * (s.len() as int / n) <= s.len(),
        Seq::new(k as nat, |j: int| chunk_of(s, n, j)).flatten() == s.subrange(
            0,
            k * (s.len() as int / n),
        ),
    decreases k,
{
    let len = s.len() as int;
    let base = len / n;
    if k == 0 {
        assert(Seq::new(0, |j: int| chunk_of(s, n, j)).flatten() =~= s.subrange(0, 0));
    } else {
        lemma_chunks_prefix(s, n, k - 1);
        lemma_prefix_fits(len, n, k - 1);
        let front = Seq::new((k - 1) as nat, |j: int| chunk_of(s, n, j));
        front.lemma_flatten_push(chunk_of(s, n, k - 1));
        assert(Seq::new(k as nat, |j: int| chunk_of(s, n, j)) =~= front.push(chunk_of(s, n, k - 1)));
        assert(s.subrange(0, (k - 1) * base) + chunk_of(s, n, k - 1) =~= s.subrange(0, k * base));
    }
}

/// Putting the `n` chunks of `s` back together, in order, gives `s` again.
pub proof fn lemma_chunks_rejoin<T>(s: Seq<T>, n: int)
    requires
        1 <= n <= s.len(),
    ensures
        Seq::new(n as nat, |j: int| chunk_of(s, n, j)).flatten() == s,
{
    let len = s.len() as int;
    let k = n - 1;
    lemma_chunks_prefix(s, n, k);
    let front = Seq::new(k as nat, |j: int| chunk_of(s, n, j));
    front.lemma_flatten_push(chunk_of(s, n, k));
    assert(Seq::new(n as nat, |j: int| chunk_of(s, n, j)) =~= front.push(chunk_of(s, n, k)));
    assert(s.subrange(0, k * (len / n)) + chunk_of(s, n, k) =~= s);
}

/// Splits `arr` into `n` contiguous, disjoint mutable chunks in order of their offsets.
/// Each chunk but the last holds `len / n` elements; the last one takes the remainder
/// too. Whatever is later written through the chunks is what `arr` holds, in order.
pub fn split_chunks_mut<T>(arr: &mut [T], n: usize) -> (chunks: Vec<&mut [T]>)
    requires
        1 <= n <= old(arr)@.len(),
    ensures
        chunks@.len() == n,
        forall|i: int| 0 <= i < n ==> chunks@[i]@ == chunk_of(old(arr)@, n as int, i),
        final(arr)@ == Seq::new(n as nat, |j: int| final(chunks@[j])@).flatten(),
{
    let len = arr.len();
    let base: usize = len / n;
    let ghost whole = final(arr)@;
    let mut chunks: Vec<&mut [T]> = Vec::with_capacity(n);
    let mut rest = arr;
    let mut i: usize = 0;
    while i < n - 1
        invariant
            0 <= i <= n - 1,
            1 <= n <= len,
            len == old(arr)@.len(),
            base == len / n,
            chunks@.len() == i,
            0 <= i * base <= len,
            rest@ == old(arr)@.subrange(i * base, len as int),
            forall|j: int| 0 <= j < i ==> chunks@[j]@ == chunk_of(old(arr)@, n as int, j),
            whole == Seq::new(i as nat, |j: int| final(chunks@[j])@).flatten() + final(rest)@,
        decreases n - 1 - i,
    {
        proof {
            lemma_prefix_fits(len as int, n as int, i as int);
        }
        let (l, r) = rest.split_at_mut(base);
        let ghost before = Seq::new(i as nat, |j: int| final(chunks@[j])@);
        let ghost head = final(l)@;
        chunks.push(l);
        rest = r;
        i = i + 1;
        proof {
            let after = Seq::new(i as nat, |j: int| final(chunks@[j])@);
            assert(after =~= before.push(head));
            before.lemma_flatten_push(head);
            assert(chunks@[i - 1]@ =~= chunk_of(old(arr)@, n as int, i - 1));
        }
    }
    proof {
        lemma_prefix_fits(len as int, n as int, i as int);
    }
    let ghost before = Seq::new(i as nat, |j: int| final(chunks@[j])@);
    let ghost tail = final(rest)@;
    chunks.push(rest);
    proof {
        let after = Seq::new(n as nat, |j: int| final(chunks@[j])@);
        assert(after =~= before.push(tail));
        before.lemma_flatten_push(tail);
        assert(chunks@[n - 1]@ =~= chunk_of(old(arr)@, n as int, n - 1));
    }
    chunks
}

} // verus!
