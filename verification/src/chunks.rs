//! Frames cut into chunks.
use crate::options::min_of;
use vstd::prelude::*;

verus! {

/// That these chunks are the frames, so many in each but the last one.
pub open spec fn are_chunks(frames: Seq<Seq<u32>>, c: int, chunks: Seq<Seq<Seq<u32>>>) -> bool {
    &&& frames.len() <= chunks.len() * c
    &&& chunks.len() > 0 ==> (chunks.len() - 1) * c < frames.len()
    &&& forall|j: int|
        0 <= j < chunks.len() ==> #[trigger] chunks[j] == frames.subrange(
            j * c,
            min_of((j + 1) * c, frames.len() as int),
        )
}

/// One more chunk behind full ones.
pub proof fn lemma_one_more_chunk(
    sent: Seq<Seq<u32>>,
    now: Seq<Seq<u32>>,
    c: int,
    chunks: Seq<Seq<Seq<u32>>>,
)
    requires
        c > 0,
        are_chunks(sent, c, chunks),
        sent.len() == chunks.len() * c,
        sent.is_prefix_of(now),
        sent.len() < now.len() <= sent.len() + c,
    ensures
        are_chunks(now, c, chunks.push(now.skip(sent.len() as int))),
{
    let all = chunks.push(now.skip(sent.len() as int));
    let n = chunks.len() as int;
    assert((n + 1) * c == n * c + c) by (nonlinear_arith);
    assert forall|j: int| 0 <= j < all.len() implies #[trigger] all[j] == now.subrange(
        j * c,
        min_of((j + 1) * c, now.len() as int),
    ) by {
        if j < n {
            assert((j + 1) * c <= n * c && 0 <= j * c <= (j + 1) * c) by (nonlinear_arith)
                requires
                    0 <= j < n,
                    c > 0,
            ;
            assert(chunks[j] == sent.subrange(j * c, min_of((j + 1) * c, sent.len() as int)));
            assert(sent == now.subrange(0, sent.len() as int));
            assert(chunks[j] =~= now.subrange(j * c, (j + 1) * c));
        } else {
            assert(all[j] =~= now.subrange(j * c, now.len() as int));
        }
    }
}

/// Where a chunk is as long as there may be frames, the only chunk is the whole of
/// what a synthesis that is not streamed gives.
pub proof fn law_one_chunk(frames: Seq<Seq<u32>>, c: int, chunks: Seq<Seq<Seq<u32>>>)
    requires
        0 < frames.len() <= c,
        are_chunks(frames, c, chunks),
    ensures
        chunks == seq![frames],
{
    if chunks.len() > 1 {
        assert((chunks.len() - 1) * c >= c) by (nonlinear_arith)
            requires
                chunks.len() > 1,
                c > 0,
        ;
    }
    if chunks.len() == 0 {
        assert(chunks.len() * c == 0);
    }
    assert(chunks.len() == 1);
    assert(chunks[0] == frames.subrange(0 * c, min_of((0 + 1) * c, frames.len() as int)));
    assert(chunks[0] =~= frames);
    assert(chunks =~= seq![frames]);
}

/// The number of chunks is the number of frames by the frames of a chunk, rounded
/// up.
pub proof fn law_chunk_count(frames: Seq<Seq<u32>>, c: int, chunks: Seq<Seq<Seq<u32>>>)
    requires
        c > 0,
        are_chunks(frames, c, chunks),
    ensures
        chunks.len() == (frames.len() + c - 1) / c,
{
    let n = chunks.len() as int;
    let k = frames.len() as int;
    assert(n == (k + c - 1) / c) by (nonlinear_arith)
        requires
            c > 0,
            k >= 0,
            n >= 0,
            k <= n * c,
            n > 0 ==> (n - 1) * c < k,
    ;
}

/// Whether the frames of a sequence are its chunks and what is buffered. Only a
/// sequence that is over has a chunk that is not full, and then nothing is buffered.
pub open spec fn is_cut(
    made: Seq<Seq<u32>>,
    buffered: Seq<Seq<u32>>,
    chunks: Seq<Seq<Seq<u32>>>,
    c: int,
    over: bool,
) -> bool {
    let taken = made.len() - buffered.len();
    &&& 0 <= taken
    &&& buffered == made.skip(taken)
    &&& are_chunks(made.take(taken), c, chunks)
    &&& taken == chunks.len() * c || (over && buffered.len() == 0)
}

/// What is buffered becomes a chunk.
pub proof fn lemma_take(
    made: Seq<Seq<u32>>,
    buffered: Seq<Seq<u32>>,
    chunks: Seq<Seq<Seq<u32>>>,
    c: int,
    over: bool,
)
    requires
        is_cut(made, buffered, chunks, c, over),
        0 < buffered.len() <= c,
        over || buffered.len() == c,
    ensures
        is_cut(made, Seq::empty(), chunks.push(buffered), c, over),
{
    let taken = made.len() - buffered.len();
    let sent = made.take(taken);
    assert(sent =~= made.subrange(0, sent.len() as int));
    lemma_one_more_chunk(sent, made, c, chunks);
    assert(made.take(made.len() as int) =~= made);
    assert(made.skip(made.len() as int) =~= Seq::<Seq<u32>>::empty());
    assert((chunks.len() + 1) * c == chunks.len() * c + c) by (nonlinear_arith);
}

/// A frame is buffered.
pub proof fn lemma_buffer(
    made: Seq<Seq<u32>>,
    buffered: Seq<Seq<u32>>,
    chunks: Seq<Seq<Seq<u32>>>,
    c: int,
    frame: Seq<u32>,
)
    requires
        is_cut(made, buffered, chunks, c, false),
    ensures
        is_cut(made.push(frame), buffered.push(frame), chunks, c, false),
{
    let taken = made.len() - buffered.len();
    assert(made.push(frame).take(taken) =~= made.take(taken));
    assert(made.push(frame).skip(taken) =~= buffered.push(frame));
}

/// Where as many frames were made as fill chunks, what is buffered is a full chunk.
pub proof fn lemma_full(
    made: Seq<Seq<u32>>,
    buffered: Seq<Seq<u32>>,
    chunks: Seq<Seq<Seq<u32>>>,
    c: int,
)
    requires
        c > 0,
        is_cut(made, buffered, chunks, c, false),
        0 < buffered.len() <= c,
        made.len() as int % c == 0,
    ensures
        buffered.len() == c,
{
    let n = made.len() as int;
    let q = n / c;
    let d = chunks.len() as int;
    let b = buffered.len() as int;
    vstd::arithmetic::div_mod::lemma_fundamental_div_mod(n, c);
    assert(b == c) by (nonlinear_arith)
        requires
            n == c * q,
            n - b == d * c,
            0 < b <= c,
            c > 0,
    ;
}

/// No frames are cut into no chunks.
pub proof fn lemma_nothing_cut(c: int, over: bool)
    requires
        c > 0,
    ensures
        is_cut(Seq::empty(), Seq::empty(), Seq::empty(), c, over),
{
    let none = Seq::<Seq<u32>>::empty();
    assert(none.skip(0) =~= none);
    assert(none.take(0) =~= none);
    assert(0 * c == 0);
}

} // verus!
