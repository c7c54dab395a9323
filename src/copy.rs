use vstd::prelude::*;

use crate::buffers::counting;
use crate::partition::{chunk_of, lemma_chunks_rejoin, lemma_prefix_fits, split_chunks_mut};

verus! {

/// What a destination holds after `k` whole-chunk copies from `src`: each copy
/// overwrites every element, so the result no longer depends on the old content
/// once at least one copy has run.
pub open spec fn repeat_copy<T>(dst: Seq<T>, src: Seq<T>, k: nat) -> Seq<T>
    decreases k,
{
    if k == 0 {
        dst
    } else {
        repeat_copy(src, src, (k - 1) as nat)
    }
}

/// Relies on `<[T]>::copy_from_slice`: with equal lengths, every element of `src`
/// is copied into `dst` in place.
#[verifier::external_body]
fn copy_slice<T: Copy>(dst: &mut [T], src: &[T])
    requires
        old(dst)@.len() == src@.len(),
    ensures
        final(dst)@ == src@,
{
    dst.copy_from_slice(src)
}

/// The work of one worker: overwrite `dst` with `src`, `iterations` times over.
pub fn copy_chunk<T: Copy>(dst: &mut [T], src: &[T], iterations: usize)
    requires
        old(dst)@.len() == src@.len(),
    ensures
        final(dst)@ == repeat_copy(old(dst)@, src@, iterations as nat),
{
    let mut k: usize = 0;
    while k < iterations
        invariant
            0 <= k <= iterations,
            dst@.len() == src@.len(),
            repeat_copy(old(dst)@, src@, iterations as nat) == repeat_copy(
                dst@,
                src@,
                (iterations - k) as nat,
            ),
        decreases iterations - k,
    {
        copy_slice(dst, src);
        k = k + 1;
    }
}

/// Copying a chunk many times leaves the same content as copying it once: the
/// source, whatever the destination held before. Copying zero times changes nothing.
pub proof fn lemma_repeat_copy_idempotent<T>(dst: Seq<T>, src: Seq<T>, k: nat)
    ensures
        repeat_copy(dst, src, 1) == src,
        k >= 1 ==> repeat_copy(dst, src, k) == repeat_copy(dst, src, 1),
        k == 0 ==> repeat_copy(dst, src, k) == dst,
    decreases k,
{
    assert(repeat_copy(src, src, 0) == src);
    if k > 1 {
        lemma_repeat_copy_idempotent(src, src, (k - 1) as nat);
    }
}

/// When every destination chunk has gone through its worker's copies from the
/// matching source chunk, the chunks joined in order are the destination buffer
/// copied as a whole: the source once at least one iteration ran. Where the source
/// counts up from zero, element `i` of the result is then `i`.
pub proof fn lemma_copy_phase_complete(
    dst: Seq<u64>,
    src: Seq<u64>,
    threads: int,
    iterations: nat,
    finals: Seq<Seq<u64>>,
)
    requires
        dst.len() == src.len(),
        src.len() <= usize::MAX,
        1 <= threads <= src.len(),
        finals.len() == threads,
        forall|j: int|
            0 <= j < threads ==> #[trigger] finals[j] == repeat_copy(
                chunk_of(dst, threads, j),
                chunk_of(src, threads, j),
                iterations,
            ),
    ensures
        finals.flatten() == repeat_copy(dst, src, iterations),
        iterations >= 1 ==> finals.flatten() == src,
        iterations >= 1 && src == counting(src.len()) ==> forall|i: int|
            0 <= i < src.len() ==> finals.flatten()[i] == src[i] && src[i] == i,
{
    lemma_repeat_copy_idempotent(dst, src, iterations);
    if iterations == 0 {
        lemma_chunks_rejoin(dst, threads);
        assert(finals =~= Seq::new(threads as nat, |j: int| chunk_of(dst, threads, j)));
    } else {
        lemma_chunks_rejoin(src, threads);
        assert forall|j: int| 0 <= j < threads implies finals[j] == chunk_of(src, threads, j) by {
            lemma_repeat_copy_idempotent(
                chunk_of(dst, threads, j),
                chunk_of(src, threads, j),
                iterations,
            );
        }
        assert(finals =~= Seq::new(threads as nat, |j: int| chunk_of(src, threads, j)));
    }
}

/// The copy phase on one thread: `dst` is cut into `threads` chunks, and each
/// chunk is overwritten `iterations` times from the matching range of `src`.
pub fn copy_in_chunks(dst: &mut [u64], src: &[u64], threads: usize, iterations: usize)
    requires
        old(dst)@.len() == src@.len(),
        1 <= threads <= src@.len(),
    ensures
        final(dst)@ == repeat_copy(old(dst)@, src@, iterations as nat),
{
    let len = src.len();
    let base: usize = len / threads;
    let ghost start_dst = dst@;
    let mut chunks = split_chunks_mut(dst, threads);
    let ghost finals = Seq::new(threads as nat, |j: int| final(chunks@[j])@);
    let mut i: usize = threads;
    while i > 0
        invariant
            0 <= i <= threads,
            1 <= threads <= len,
            len == src@.len(),
            len == start_dst.len(),
            base == len / threads,
            chunks@.len() == i,
            finals.len() == threads,
            forall|j: int| 0 <= j < i ==> chunks@[j]@ == chunk_of(start_dst, threads as int, j),
            forall|j: int| 0 <= j < i ==> final(chunks@[j])@ == finals[j],
            forall|j: int|
                i <= j < threads ==> finals[j] == repeat_copy(
                    chunk_of(start_dst, threads as int, j),
                    chunk_of(src@, threads as int, j),
                    iterations as nat,
                ),
        decreases i,
    {
        i = i - 1;
        proof {
            lemma_prefix_fits(len as int, threads as int, i as int);
        }
        let start: usize = i * base;
        let end: usize = if i == threads - 1 {
            len
        } else {
            start + base
        };
        let piece = chunks.pop().unwrap();
        let part = &src[start..end];
        assert(piece@ == chunk_of(start_dst, threads as int, i as int));
        assert(part@ == chunk_of(src@, threads as int, i as int));
        copy_chunk(piece, part, iterations);
    }
    proof {
        lemma_copy_phase_complete(start_dst, src@, threads as int, iterations as nat, finals);
    }
}

} // verus!
