//! What of several texts is decoded, and whose audio it becomes: told by what was asked
//! and replied in each round.
use crate::audio::AudioBuffer;
use crate::batch::{
    all_values, chosen, empties, lemma_in_order, lemma_planes_len, lemma_with_frames,
    most_frames, with_frames,
};
use crate::batch_runs::batch_leads;
use crate::batch_synth::{silent, BatchStage, BatchSynthesis, BatchTurn};
use crate::batch_synth_talks::{
    done_at, lemma_run, lemma_starts, lemma_tokens, stage_come, texts_of, BatchTalk,
};
use crate::batch_talks::{going_on, lemma_going_on};
use crate::clone::VoiceClonePrompt;
use crate::codes::{code_at, full_frames, lemma_transferred, plane, planes, transferred, values, CODEBOOKS};
use crate::grid::cells_of;
use crate::model::{BatchRequest, Qwen3TTS};
use crate::request::{Reply, Request};
use crate::round::{actives, indices, lemma_actives, Batch, Round, RoundPhase, RoundTurn};
use crate::runs::lemma_cut_again;
use crate::talks::Talk;
use crate::tensor::{grid, grids, tensor_cells, tensor_dims};
use candle_core::Tensor;
use vstd::prelude::*;

verus! {

/// The codes of sequence `i` in the round whose acoustic codes are predicted at place `j`:
/// its token, which was embedded before, and its own acoustic codes.
pub open spec fn frame_told(talk: Talk, j: int, i: int, done: Seq<bool>) -> Seq<int> {
    let n = going_on(done, done.len() as int);
    let p = going_on(done, i);
    match (talk.asked[j - n + p], talk.replies[j]) {
        (Request::EmbedToken(token), Reply::Tensors(acoustic)) => seq![tensor_cells(token)[0]]
            + tensor_cells(acoustic@[p as int]),
        _ => Seq::empty(),
    }
}

/// The frames of sequence `i` before place `k`, one for each round that it takes part in.
pub open spec fn frames_told(run: BatchTalk, k: int, i: int) -> Seq<Seq<int>>
    decreases k,
{
    if k <= 0 {
        Seq::empty()
    } else if run.talk.asked[k - 1] is BatchAcoustic && !done_at(run, k - 1)[i] {
        frames_told(run, k - 1, i).push(frame_told(run.talk, k - 1, i, done_at(run, k - 1)))
    } else {
        frames_told(run, k - 1, i)
    }
}

/// Whether there is a code for each codebook in every reply with acoustic codes.
pub open spec fn rounds_told(talk: Talk) -> bool {
    forall|j: int, p: int|
        0 <= j < talk.replies.len() && talk.asked[j] is BatchAcoustic && 0 <= p
            < talk.replies[j]->Tensors_0@.len() ==> tensor_cells(
            #[trigger] talk.replies[j]->Tensors_0@[p],
        ).len() + 1 == CODEBOOKS
}

/// Frames as cells.
pub open spec fn frames_of(codes: Seq<Seq<u32>>) -> Seq<Seq<int>> {
    codes.map_values(|c: Seq<u32>| cells_of(c))
}

/// Whether each frame has a code for each codebook.
pub open spec fn all_full(codes: Seq<Seq<Seq<u32>>>) -> bool {
    forall|i: int| 0 <= i < codes.len() ==> full_frames(#[trigger] codes[i])
}

/// That these are the frames of each sequence before place `k`.
pub open spec fn are_told(run: BatchTalk, k: int, codes: Seq<Seq<Seq<u32>>>) -> bool {
    forall|i: int|
        0 <= i < codes.len() ==> frames_of(#[trigger] codes[i]) == frames_told(run, k, i)
}

/// That these are the frames of each sequence before place `k`, but for the last one of
/// each that has not ended, which is this one.
pub open spec fn are_told_but(
    run: BatchTalk,
    k: int,
    codes: Seq<Seq<Seq<u32>>>,
    done: Seq<bool>,
    frames: Seq<Tensor>,
) -> bool {
    &&& done.len() == codes.len()
    &&& forall|i: int|
        0 <= i < codes.len() ==> frames_told(run, k, i) == if done[i] {
            frames_of(#[trigger] codes[i])
        } else {
            frames_of(codes[i]).push(tensor_cells(frames[going_on(done, i) as int]))
        }
    &&& forall|p: int|
        0 <= p < frames.len() ==> tensor_cells(#[trigger] frames[p]).len() == CODEBOOKS
}

/// That the acoustic codes of a round came before place `k`.
pub open spec fn are_predicted_but(
    run: BatchTalk,
    k: int,
    codes: Seq<Seq<Seq<u32>>>,
    b: Batch,
    acoustic: Seq<Tensor>,
) -> bool {
    &&& b.done@.len() == codes.len()
    &&& forall|i: int|
        0 <= i < codes.len() ==> frames_told(run, k, i) == if b.done@[i] {
            frames_of(#[trigger] codes[i])
        } else {
            frames_of(codes[i]).push(
                seq![tensor_cells(b.tokens@[i])[0]] + tensor_cells(
                    acoustic[going_on(b.done@, i) as int],
                ),
            )
        }
    &&& forall|p: int|
        0 <= p < acoustic.len() ==> tensor_cells(#[trigger] acoustic[p]).len() + 1 == CODEBOOKS
}

/// That the frames of all sequences are known where the request at place `k` waits for
/// its reply.
#[verifier::opaque]
pub open spec fn frames_come(run: BatchTalk, k: int, s: BatchSynthesis) -> bool {
    let codes = all_values(s.codes@);
    &&& all_full(codes)
    &&& match s.stage {
        BatchStage::Single(_) => false,
        BatchStage::Playing(r) => match r.phase {
            RoundPhase::Embedding { .. } => are_told(run, k, codes),
            RoundPhase::Predicting { .. } => are_told(run, k, codes),
            RoundPhase::Summing { acoustic, .. } => are_predicted_but(
                run,
                k,
                codes,
                r.batch,
                acoustic@,
            ),
            RoundPhase::Layers { frames } => are_told_but(run, k, codes, r.batch.done@, frames@),
            RoundPhase::Norm { frames } => are_told_but(run, k, codes, r.batch.done@, frames@),
            RoundPhase::Head { frames, .. } => are_told_but(run, k, codes, r.batch.done@, frames@),
        },
        BatchStage::Choosing(p) => are_told_but(run, k, codes, p.batch.done@, p.frames@),
        _ => are_told(run, k, codes),
    }
}

/// Which state a round is in decides whether acoustic codes are asked for.
proof fn lemma_asks(talk: Talk, k: int, texts: Seq<Seq<char>>, s: BatchSynthesis)
    requires
        s.wf(),
        stage_come(talk, k, texts, s),
    ensures
        talk.asked[k] is BatchAcoustic <==> (s.stage matches BatchStage::Playing(r)
            && r.phase is Predicting),
        talk.asked[k] is Decode <==> s.stage is Decoding,
        talk.asked[k] is ToAudio <==> s.stage is Reading,
{
    reveal(stage_come);
}

/// A round of a synthesis leads on.
proof fn lemma_frames_round(
    run: BatchTalk,
    k: int,
    texts: Seq<Seq<char>>,
    s: BatchSynthesis,
    r: Round,
    t: RoundTurn,
    next: BatchSynthesis,
)
    requires
        0 <= k < run.talk.replies.len(),
        rounds_told(run.talk),
        s == run.states[k],
        s.wf(),
        next.wf(),
        s.stage == BatchStage::Playing(r),
        stage_come(run.talk, k, texts, s),
        frames_come(run, k, s),
        r.steps(run.talk.replies[k], t),
        next.codes == s.codes,
        match t {
            RoundTurn::Ask(r, _) => next.stage == BatchStage::Playing(r),
            RoundTurn::Played(p) => next.stage == BatchStage::Choosing(p),
        },
    ensures
        frames_come(run, k + 1, next),
{
    reveal(frames_come);
    lemma_asks(run.talk, k, texts, s);
    let codes = all_values(s.codes@);
    let done = r.batch.done@;
    assert(codes.len() == s.codes@.len());
    lemma_going_on(done);
    assert(indices(r.active@).len() == r.active@.len());
    let reply = run.talk.replies[k];
    match (r.phase, reply) {
        (RoundPhase::Predicting { .. }, Reply::Tensors(acoustic)) => {
            assert forall|p: int| 0 <= p < acoustic@.len() implies tensor_cells(
                #[trigger] acoustic@[p],
            ).len() + 1 == CODEBOOKS by {
                assert(run.talk.replies[k]->Tensors_0@[p] == acoustic@[p]);
            }
            assert forall|i: int| 0 <= i < codes.len() implies frames_told(run, k + 1, i) == if done[i] {
                frames_of(#[trigger] codes[i])
            } else {
                frames_of(codes[i]).push(
                    seq![tensor_cells(r.batch.tokens@[i])[0]] + tensor_cells(
                        acoustic@[going_on(done, i) as int],
                    ),
                )
            } by {
                assert(frames_of(codes[i]) == frames_told(run, k, i));
                if !done[i] {
                    lemma_tokens(run, k, texts, r, i);
                }
            }
            assert(are_predicted_but(run, k + 1, codes, r.batch, acoustic@));
        },
        (RoundPhase::Summing { acoustic, sums, .. }, Reply::Tensor(_)) => {
            assert(are_predicted_but(run, k + 1, codes, r.batch, acoustic@));
            if next.stage->Playing_0.phase is Layers {
                let frames = next.stage->Playing_0.phase->Layers_frames;
                assert forall|p: int| 0 <= p < frames@.len() implies tensor_cells(
                    #[trigger] frames@[p],
                ) == seq![tensor_cells(r.batch.tokens@[r.active@[p] as int])[0]] + tensor_cells(
                    acoustic@[p],
                ) by {
                    assert(grid(frames@[p]).cells == tensor_cells(frames@[p]));
                }
                assert forall|i: int| 0 <= i < codes.len() implies frames_told(run, k + 1, i)
                    == if done[i] {
                    frames_of(#[trigger] codes[i])
                } else {
                    frames_of(codes[i]).push(tensor_cells(frames@[going_on(done, i) as int]))
                } by {
                    if !done[i] {
                        let p = going_on(done, i) as int;
                        assert(indices(r.active@)[p] == r.active@[p]);
                        assert(tensor_cells(frames@[p]) == tensor_cells(frames@[p]));
                    }
                }
            }
        },
        _ => {},
    }
}

/// What is decoded, or played next, are the frames that were told.
proof fn lemma_proceeds(
    run: BatchTalk,
    k: int,
    s: BatchSynthesis,
    batch: Batch,
    codes: Seq<Seq<Seq<u32>>>,
    next: BatchSynthesis,
    ask: Request,
)
    requires
        are_told(run, k, codes),
        all_full(codes),
        next.wf(),
        ask == run.talk.asked[k],
        s.proceeds(batch, codes, BatchTurn::Ask(next, ask)),
    ensures
        frames_come(run, k, next),
        read_come(run, k, next),
{
    reveal(frames_come);
    reveal(read_come);
    assert(all_values(next.codes@).len() == next.codes@.len());
    if next.stage is Decoding {
        lemma_finishes(run, k, s, codes, next, ask->Decode_0);
    }
}

/// One more frame is kept of each sequence that has not ended.
proof fn lemma_kept(
    run: BatchTalk,
    k: int,
    codes: Seq<Seq<Seq<u32>>>,
    done: Seq<bool>,
    active: Seq<usize>,
    frames: Seq<Tensor>,
    rows: Seq<Vec<u32>>,
)
    requires
        are_told_but(run, k, codes, done, frames),
        all_full(codes),
        indices(active) == actives(done),
        frames.len() == active.len(),
        transferred(frames, rows),
    ensures
        are_told(run, k, with_frames(codes, active, values(rows))),
        with_frames(codes, active, values(rows)).len() == codes.len(),
        all_full(with_frames(codes, active, values(rows))),
{
    let vals = values(rows);
    let now = with_frames(codes, active, vals);
    let n = frames.len() as int;
    assert(vals.len() == rows.len());
    lemma_in_order(done, active);
    lemma_with_frames(codes, active, vals);
    lemma_going_on(done);
    lemma_actives(done);
    lemma_cut_again(frames, n);
    assert(grids(frames).take(n) =~= grids(frames));
    assert(indices(active).len() == active.len());
    assert forall|i: int| 0 <= i < now.len() implies frames_of(#[trigger] now[i]) == frames_told(
        run,
        k,
        i,
    ) by {
        assert(codes[i] == codes[i]);
        if done[i] {
            assert forall|p: int| 0 <= p < active.len() implies active[p] != i by {
                assert(indices(active)[p] == active[p]);
            }
            assert(frames_told(run, k, i) == frames_of(codes[i]));
        } else {
            let p = going_on(done, i) as int;
            assert(indices(active)[p] == active[p]);
            assert(now[active[p] as int] == codes[active[p] as int].push(vals[p]));
            assert(cells_of(rows[p]@) == tensor_cells(frames[p]));
            assert(frames_told(run, k, i) == frames_of(codes[i]).push(tensor_cells(frames[p])));
            assert(frames_of(now[i]) =~= frames_of(codes[i]).push(tensor_cells(frames[p])));
        }
    }
    lemma_transferred(frames, rows);
    assert forall|i: int| 0 <= i < now.len() implies full_frames(#[trigger] now[i]) by {
        assert(full_frames(codes[i]));
        if done[i] {
            assert forall|p: int| 0 <= p < active.len() implies active[p] != i by {
                assert(indices(active)[p] == active[p]);
            }
        } else {
            let p = going_on(done, i) as int;
            assert(indices(active)[p] == active[p]);
            assert(now[active[p] as int] == codes[active[p] as int].push(vals[p]));
            assert(vals[p].len() == CODEBOOKS);
        }
    }
}

/// A reply leads on in a synthesis of several texts.
proof fn lemma_frames(
    run: BatchTalk,
    k: int,
    texts: Seq<Seq<char>>,
    s: BatchSynthesis,
    next: BatchSynthesis,
)
    requires
        0 <= k < run.talk.replies.len(),
        rounds_told(run.talk),
        s == run.states[k],
        next.wf(),
        stage_come(run.talk, k, texts, s),
        frames_come(run, k, s),
        batch_leads(s, run.talk.replies[k], BatchTurn::Ask(next, run.talk.asked[k + 1])),
    ensures
        frames_come(run, k + 1, next),
        s.stage is Decoding || s.stage is Reading || read_come(run, k + 1, next),
{
    reveal(batch_leads);
    lemma_asks(run.talk, k, texts, s);
    let reply = run.talk.replies[k];
    let ask = run.talk.asked[k + 1];
    let turn = BatchTurn::Ask(next, ask);
    let codes = all_values(s.codes@);
    match (s.stage, reply) {
        (BatchStage::First { ready, zero }, Reply::Tensor(logits)) => {
            assert(are_told(run, k + 1, codes) && all_full(codes)) by {
                reveal(frames_come);
            }
            let batch = choose|batch: Batch| #[trigger] s.proceeds(batch, codes, turn);
            lemma_proceeds(run, k + 1, s, batch, codes, next, ask);
        },
        (BatchStage::Choosing(p), Reply::Tensor(logits)) => {
            assert(are_told_but(run, k + 1, codes, p.batch.done@, p.frames@) && all_full(codes)) by {
                reveal(frames_come);
            }
            let (batch, rows) = choose|batch: Batch, rows: Seq<Vec<u32>>| #[trigger]
                transferred(p.frames@, rows) && #[trigger] s.proceeds(
                    batch,
                    with_frames(codes, p.active@, values(rows)),
                    turn,
                );
            lemma_kept(run, k + 1, codes, p.batch.done@, p.active@, p.frames@, rows);
            let now = with_frames(codes, p.active@, values(rows));
            lemma_proceeds(run, k + 1, s, batch, now, next, ask);
        },
        (BatchStage::Playing(r), _) => {
            let t = choose|t: RoundTurn| #[trigger]
                r.steps(reply, t) && match t {
                    RoundTurn::Ask(r, a) => next.stage == BatchStage::Playing(r) && next.codes
                        == s.codes,
                    RoundTurn::Played(p) => next.stage == BatchStage::Choosing(p) && next.codes
                        == s.codes,
                };
            lemma_frames_round(run, k, texts, s, r, t, next);
            reveal(read_come);
        },
        _ => {
            reveal(frames_come);
            reveal(read_come);
        },
    }
}

/// Where the code of a frame in a codebook stands among those of several sequences.
pub open spec fn place_of(m: int, q: int, f: int, frames: int) -> int {
    (m * CODEBOOKS + q) * frames + f
}

/// A cell of the planes of several sequences.
proof fn lemma_planes(items: Seq<Seq<Seq<u32>>>, frames: nat, m: int, q: int, f: int)
    requires
        0 <= m < items.len(),
        0 <= q < CODEBOOKS,
        0 <= f < frames,
    ensures
        0 <= place_of(m, q, f, frames as int) < planes(items, frames).len(),
        planes(items, frames)[place_of(m, q, f, frames as int)] == code_at(items[m], f, q),
    decreases items.len(),
{
    let init = items.drop_last();
    let n = init.len() as int;
    let x = place_of(m, q, f, frames as int);
    lemma_planes_len(init, frames);
    if m < n {
        lemma_planes(init, frames, m, q, f);
    } else {
        assert(x == n * (CODEBOOKS * frames) + (q * frames + f)) by (nonlinear_arith)
            requires
                x == (n * CODEBOOKS + q) * frames + f,
        ;
        assert(0 <= q * frames + f < CODEBOOKS * frames) by (nonlinear_arith)
            requires
                0 <= f < frames,
                0 <= q < CODEBOOKS,
        ;
        assert(n * (CODEBOOKS * frames) >= 0) by (nonlinear_arith)
            requires
                n >= 0,
        ;
        vstd::arithmetic::div_mod::lemma_fundamental_div_mod_converse(
            q * frames + f,
            frames as int,
            q,
            f,
        );
        assert(plane(items.last(), frames)[q * frames + f] == code_at(items[m], f, q));
    }
}

/// The greatest number of frames is that of a sequence.
proof fn lemma_most(items: Seq<Seq<Seq<u32>>>)
    ensures
        forall|m: int| 0 <= m < items.len() ==> (#[trigger] items[m]).len() <= most_frames(items),
        items.len() > 0 ==> exists|m: int|
            0 <= m < items.len() && (#[trigger] items[m]).len() == most_frames(items),
    decreases items.len(),
{
    if items.len() > 0 {
        let init = items.drop_last();
        let n = items.len() - 1;
        lemma_most(init);
        assert forall|m: int| 0 <= m < items.len() implies (#[trigger] items[m]).len()
            <= most_frames(items) by {
            if m < n {
                assert(init[m] == items[m]);
            }
        }
        if items.last().len() > most_frames(init) {
            assert(items[n].len() == most_frames(items));
        } else if init.len() > 0 {
            let m = choose|m: int|
                0 <= m < init.len() && (#[trigger] init[m]).len() == most_frames(init);
            assert(items[m].len() == most_frames(items));
        } else {
            assert(items[n].len() == most_frames(items));
        }
    }
}

/// The code of a frame in a codebook, or zero behind the last frame.
pub open spec fn code_or_zero(run: BatchTalk, k: int, i: int, f: int, q: int) -> int {
    if f < frames_told(run, k, i).len() {
        frames_told(run, k, i)[f][q]
    } else {
        0
    }
}

/// Which of `n` sequences have no frame before place `k`.
pub open spec fn without_frames(run: BatchTalk, k: int, n: int) -> Seq<bool> {
    Seq::new(n as nat, |i: int| frames_told(run, k, i).len() == 0)
}

/// That the frames of `n` sequences are decoded at place `k`: those of each that has any
/// on a row of its own, in the order of the texts, with room for the longest of them and
/// zeros behind the last frame of a shorter one.
pub open spec fn are_decoded(run: BatchTalk, k: int, n: int, t: Tensor) -> bool {
    let none = without_frames(run, k, n);
    let longest = tensor_dims(t)[2] as int;
    &&& tensor_dims(t).len() == 3
    &&& tensor_dims(t)[0] == going_on(none, n)
    &&& tensor_dims(t)[1] == CODEBOOKS
    &&& forall|i: int| 0 <= i < n ==> #[trigger] frames_told(run, k, i).len() <= longest
    &&& exists|i: int| 0 <= i < n && #[trigger] frames_told(run, k, i).len() == longest
    &&& forall|i: int, f: int, q: int|
        0 <= i < n && !none[i] && 0 <= f < longest && 0 <= q < CODEBOOKS ==> tensor_cells(
            t,
        )[place_of(going_on(none, i) as int, q, f, longest)] == #[trigger] code_or_zero(
            run,
            k,
            i,
            f,
            q,
        )
}

/// What is decoded are the frames that were told.
proof fn lemma_finishes(
    run: BatchTalk,
    k: int,
    s: BatchSynthesis,
    codes: Seq<Seq<Seq<u32>>>,
    next: BatchSynthesis,
    t: Tensor,
)
    requires
        are_told(run, k, codes),
        all_full(codes),
        next.wf(),
        s.finishes(codes, BatchTurn::Ask(next, Request::Decode(t))),
    ensures
        next.stage matches BatchStage::Decoding(order) && indices(order@) == actives(
            without_frames(run, k, codes.len() as int),
        ),
        are_decoded(run, k, codes.len() as int, t),
{
    let n = codes.len() as int;
    let none = without_frames(run, k, n);
    let order = next.stage->Decoding_0;
    assert forall|i: int| 0 <= i < n implies (#[trigger] codes[i]).len() == frames_told(
        run,
        k,
        i,
    ).len() by {
        assert(frames_of(codes[i]).len() == codes[i].len());
    }
    assert(empties(codes) =~= none) by {
        assert forall|i: int| 0 <= i < n implies empties(codes)[i] == none[i] by {
            assert(codes[i].len() == frames_told(run, k, i).len());
        }
    }
    lemma_actives(none);
    lemma_going_on(none);
    assert(indices(order@).len() == order@.len());
    let items = chosen(codes, order@);
    assert(planes(seq![codes[order@[0] as int]], codes[order@[0] as int].len()) =~= plane(
        codes[order@[0] as int],
        codes[order@[0] as int].len(),
    )) by {
        let one = seq![codes[order@[0] as int]];
        assert(one.drop_last() =~= Seq::<Seq<Seq<u32>>>::empty());
        assert(planes(one.drop_last(), codes[order@[0] as int].len()) =~= Seq::<int>::empty());
    }
    assert(indices(order@)[0] == order@[0]);
    if order@.len() == 1 {
        assert(items =~= seq![codes[order@[0] as int]]);
    }
    lemma_most(items);
    let longest = most_frames(items);
    assert(grid(t).dims == tensor_dims(t));
    assert(grid(t).cells == tensor_cells(t));
    let far = choose|m: int| 0 <= m < items.len() && (#[trigger] items[m]).len() == longest;
    assert(indices(order@)[far] == order@[far]);
    let most = order@[far] as int;
    assert(codes[most].len() == longest);
    assert(frames_told(run, k, most).len() == longest);
    assert(longest <= usize::MAX) by {
        assert(all_values(next.codes@)[most].len() <= next.limits@[most]);
    }
    if order@.len() == 1 {
        assert(far == 0);
    }
    assert(tensor_cells(t) == planes(items, longest));
    assert(tensor_dims(t)[2] == longest);
    assert(order.len() == order@.len());
    assert(tensor_dims(t)[0] == going_on(none, n));
    assert(tensor_dims(t)[1] == CODEBOOKS);
    assert forall|i: int| 0 <= i < n implies #[trigger] frames_told(run, k, i).len() <= longest by {
        assert(codes[i].len() == frames_told(run, k, i).len());
        if !none[i] {
            let m = going_on(none, i) as int;
            assert(indices(order@)[m] == order@[m]);
            assert(items[m] == codes[i]);
        }
    }
    assert forall|i: int, f: int, q: int|
        0 <= i < n && !none[i] && 0 <= f < longest && 0 <= q < CODEBOOKS implies tensor_cells(
        t,
    )[place_of(going_on(none, i) as int, q, f, longest as int)] == #[trigger] code_or_zero(
        run,
        k,
        i,
        f,
        q,
    ) by {
        let m = going_on(none, i) as int;
        assert(indices(order@)[m] == order@[m]);
        assert(items[m] == codes[i]);
        assert(codes[i].len() == frames_told(run, k, i).len());
        lemma_planes(items, longest, m, q, f);
        if f < codes[i].len() {
            assert(frames_of(codes[i]) == frames_told(run, k, i));
            assert(frames_of(codes[i])[f] == cells_of(codes[i][f]));
            assert(full_frames(codes[i]));
            assert(codes[i][f].len() == CODEBOOKS);
            assert(cells_of(codes[i][f])[q] == codes[i][f][q]);
        }
    }
}

/// That the audio of sequence `i` is asked for at place `k`: of its own row of the waveform
/// that was decoded, as many samples as its frames have. Where only one sequence has
/// frames, that is the whole waveform.
pub open spec fn is_row_of(run: BatchTalk, k: int, n: int, i: int) -> bool {
    let none = without_frames(run, k, n);
    let m = going_on(none, i) as int;
    let samples = frames_told(run, k, i).len() * 1920;
    &&& 0 <= i < n
    &&& !none[i]
    &&& 0 < k - m
    &&& run.talk.asked[k - m - 1] is Decode
    &&& run.talk.replies[k - m - 1] matches Reply::Tensor(waveform)
    &&& run.talk.asked[k] matches Request::ToAudio(t, rate)
    &&& rate == 24000
    &&& if going_on(none, n) == 1 {
        t == waveform
    } else {
        let row = grid(waveform).narrow(0, m as usize, 1).squeeze(0).flatten();
        grid(t) == row.narrow(
            0,
            0,
            if samples <= row.dims[0] {
                samples as usize
            } else {
                row.dims[0]
            },
        )
    }
}

/// That this is the audio of sequence `i`, which was asked for before place `k`.
pub open spec fn is_audio_of(run: BatchTalk, k: int, n: int, i: int, audio: AudioBuffer) -> bool {
    exists|a: int|
        0 <= a < k && #[trigger] is_row_of(run, a, n, i) && run.talk.replies[a] == Reply::Audio(audio)
}

/// That the audio of the sequences is read one after the other.
#[verifier::opaque]
pub open spec fn read_come(run: BatchTalk, k: int, s: BatchSynthesis) -> bool {
    let n = s.codes@.len() as int;
    let none = without_frames(run, k, n);
    match s.stage {
        BatchStage::Decoding(order) => {
            &&& indices(order@) == actives(none)
            &&& run.talk.asked[k] matches Request::Decode(t)
            &&& are_decoded(run, k, n, t)
        },
        BatchStage::Reading { order, waveform, next, results } => {
            &&& indices(order@) == actives(none)
            &&& is_row_of(run, k, n, order@[next as int] as int)
            &&& run.talk.asked[k - next - 1] is Decode
            &&& run.talk.replies[k - next - 1] == Reply::Tensor(waveform)
            &&& results@.len() == n
            &&& forall|i: int|
                0 <= i < n && none[i] ==> (#[trigger] results@[i]).samples@.len() == 0
                    && results@[i].sample_rate == 24000
            &&& forall|i: int|
                0 <= i < n && !none[i] && going_on(none, i) < next ==> is_audio_of(
                    run,
                    k,
                    n,
                    i,
                    #[trigger] results@[i],
                )
        },
        _ => true,
    }
}

/// The sequences that have frames are numbered in order.
proof fn lemma_number(none: Seq<bool>, order: Seq<usize>, p: int)
    requires
        indices(order) == actives(none),
        0 <= p < order.len(),
    ensures
        0 <= order[p] < none.len(),
        !none[order[p] as int],
        going_on(none, order[p] as int) == p,
        going_on(none, none.len() as int) == order.len(),
{
    lemma_actives(none);
    lemma_going_on(none);
    assert(indices(order).len() == order.len());
    assert(indices(order)[p] == order[p]);
    let i = order[p] as int;
    assert(actives(none)[p] == i);
    let m = going_on(none, i) as int;
    assert(actives(none)[m] == i);
    if m < p {
        assert(actives(none)[m] < actives(none)[p]);
    } else if p < m {
        assert(actives(none)[p] < actives(none)[m]);
    }
}

/// The audio of a sequence is asked for.
proof fn lemma_reads(
    run: BatchTalk,
    k: int,
    s: BatchSynthesis,
    order: Vec<usize>,
    waveform: Tensor,
    p: int,
    results: Seq<AudioBuffer>,
    next: BatchSynthesis,
)
    requires
        0 <= p < order@.len(),
        p < k,
        p <= usize::MAX,
        are_told(run, k, all_values(s.codes@)),
        indices(order@) == actives(without_frames(run, k, s.codes@.len() as int)),
        run.talk.asked[k - p - 1] is Decode,
        run.talk.replies[k - p - 1] == Reply::Tensor(waveform),
        s.reads(order, waveform, p, results, BatchTurn::Ask(next, run.talk.asked[k])),
    ensures
        is_row_of(run, k, s.codes@.len() as int, order@[p] as int),
{
    let n = s.codes@.len() as int;
    let none = without_frames(run, k, n);
    lemma_number(none, order@, p);
    let i = order@[p] as int;
    assert(all_values(s.codes@)[i] == values(s.codes@[i]@));
    assert(values(s.codes@[i]@).len() == s.codes@[i]@.len());
    assert(frames_of(all_values(s.codes@)[i]).len() == s.codes@[i]@.len());
    assert(frames_told(run, k, i).len() == s.codes@[i]@.len());
}

/// A reply leads on where the frames are decoded and the audio is read.
proof fn lemma_read(
    run: BatchTalk,
    k: int,
    texts: Seq<Seq<char>>,
    s: BatchSynthesis,
    next: BatchSynthesis,
)
    requires
        0 <= k < run.talk.replies.len(),
        rounds_told(run.talk),
        s == run.states[k],
        next.wf(),
        stage_come(run.talk, k, texts, s),
        frames_come(run, k, s),
        read_come(run, k, s),
        s.stage is Decoding || s.stage is Reading,
        batch_leads(s, run.talk.replies[k], BatchTurn::Ask(next, run.talk.asked[k + 1])),
    ensures
        read_come(run, k + 1, next),
{
    reveal(batch_leads);
    reveal(read_come);
    lemma_asks(run.talk, k, texts, s);
    let reply = run.talk.replies[k];
    let turn = BatchTurn::Ask(next, run.talk.asked[k + 1]);
    let n = s.codes@.len() as int;
    let none = without_frames(run, k, n);
    assert(without_frames(run, k + 1, n) =~= none);
    assert(are_told(run, k + 1, all_values(s.codes@))) by {
        reveal(frames_come);
    }
    match (s.stage, reply) {
        (BatchStage::Decoding(order), Reply::Tensor(waveform)) => {
            let results = choose|results: Seq<AudioBuffer>| #[trigger]
                silent(s.codes@.len(), results) && s.reads(order, waveform, 0, results, turn);
            lemma_reads(run, k + 1, s, order, waveform, 0, results, next);
        },
        (BatchStage::Reading { order, waveform, next: p, results }, Reply::Audio(audio)) => {
            let i = order@[p as int] as int;
            let all = results@.update(i, audio);
            lemma_number(none, order@, p as int);
            lemma_reads(run, k + 1, s, order, waveform, p + 1, all, next);
            lemma_audio(run, k, n, none, order@, p as int, results@, audio);
        },
        _ => {},
    }
}

/// The audio of one more sequence is known.
proof fn lemma_audio(
    run: BatchTalk,
    k: int,
    n: int,
    none: Seq<bool>,
    order: Seq<usize>,
    p: int,
    results: Seq<AudioBuffer>,
    audio: AudioBuffer,
)
    requires
        0 <= k,
        none.len() == n,
        results.len() == n,
        0 <= p < order.len(),
        indices(order) == actives(none),
        is_row_of(run, k, n, order[p] as int),
        run.talk.replies[k] == Reply::Audio(audio),
        forall|i: int|
            0 <= i < n && !none[i] && going_on(none, i) < p ==> is_audio_of(
                run,
                k,
                n,
                i,
                #[trigger] results[i],
            ),
    ensures
        forall|i: int|
            0 <= i < n && !none[i] && going_on(none, i) < p + 1 ==> is_audio_of(
                run,
                k + 1,
                n,
                i,
                #[trigger] results.update(order[p] as int, audio)[i],
            ),
        forall|i: int|
            0 <= i < n && none[i] ==> #[trigger] results.update(order[p] as int, audio)[i]
                == results[i],
{
    lemma_number(none, order, p);
    lemma_going_on(none);
    let all = results.update(order[p] as int, audio);
    assert forall|i: int| 0 <= i < n && !none[i] && going_on(none, i) < p + 1 implies is_audio_of(
        run,
        k + 1,
        n,
        i,
        #[trigger] all[i],
    ) by {
        if i == order[p] {
            assert(0 <= k < k + 1 && is_row_of(run, k, n, i));
        } else {
            let m = going_on(none, i) as int;
            assert(actives(none)[m] == i);
            assert(indices(order)[p] == order[p]);
            assert(m != p);
            assert(is_audio_of(run, k, n, i, results[i]));
            let a = choose|a: int|
                0 <= a < k && #[trigger] is_row_of(run, a, n, i) && run.talk.replies[a]
                    == Reply::Audio(results[i]);
            assert(0 <= a < k + 1 && is_row_of(run, a, n, i));
        }
    }
}

/// Each request of a synthesis of several texts finds its frames told.
proof fn lemma_decode(
    model: Qwen3TTS,
    requests: Seq<BatchRequest>,
    prompts: Seq<Option<&VoiceClonePrompt>>,
    run: BatchTalk,
    k: int,
)
    requires
        requests.len() > 1,
        run.wf(),
        rounds_told(run.talk),
        model.starts_batch(requests, prompts, BatchTurn::Ask(run.states[0], run.talk.asked[0])),
        0 <= k < run.talk.asked.len(),
    ensures
        run.states[k].wf(),
        run.states[k].codes@.len() == requests.len(),
        stage_come(run.talk, k, texts_of(requests), run.states[k]),
        frames_come(run, k, run.states[k]),
        read_come(run, k, run.states[k]),
    decreases k,
{
    lemma_starts(model, requests, prompts, run);
    lemma_run(run, texts_of(requests), k);
    assert(run.states[k].codes@.len() == requests.len()) by {
        reveal(stage_come);
    }
    if k == 0 {
        reveal(frames_come);
        reveal(read_come);
        let codes = all_values(run.states[0].codes@);
        assert forall|i: int| 0 <= i < codes.len() implies frames_of(#[trigger] codes[i])
            == frames_told(run, 0, i) by {
            assert(frames_of(codes[i]) =~= Seq::<Seq<int>>::empty());
        }
    } else {
        lemma_decode(model, requests, prompts, run, k - 1);
        let s = run.states[k - 1];
        assert(batch_leads(
            run.states[k - 1],
            run.talk.replies[k - 1],
            BatchTurn::Ask(run.states[k - 1 + 1], run.talk.asked[k - 1 + 1]),
        ));
        lemma_frames(run, k - 1, texts_of(requests), s, run.states[k]);
        if s.stage is Decoding || s.stage is Reading {
            lemma_read(run, k - 1, texts_of(requests), s, run.states[k]);
        }
    }
}

/// What is decoded of several texts are the frames of each of them, in the order of the
/// texts: of each round that a sequence takes part in its own token and its own acoustic
/// codes. Then the audio of each is asked for, of its own row of the waveform and without
/// what stands behind its last frame.
pub proof fn law_batch_decoded(
    model: Qwen3TTS,
    requests: Seq<BatchRequest>,
    prompts: Seq<Option<&VoiceClonePrompt>>,
    run: BatchTalk,
    k: int,
)
    requires
        requests.len() > 1,
        run.wf(),
        rounds_told(run.talk),
        model.starts_batch(requests, prompts, BatchTurn::Ask(run.states[0], run.talk.asked[0])),
        0 <= k < run.talk.asked.len(),
    ensures
        run.talk.asked[k] matches Request::Decode(t) ==> are_decoded(
            run,
            k,
            requests.len() as int,
            t,
        ),
        run.talk.asked[k] is ToAudio ==> exists|i: int| #[trigger]
            is_row_of(run, k, requests.len() as int, i),
{
    lemma_decode(model, requests, prompts, run, k);
    lemma_asks(run.talk, k, texts_of(requests), run.states[k]);
    reveal(read_come);
}

/// That this is the audio of text `i` once `reply` has come to the last request: the one
/// that was asked for its own row, and none where it has no frames.
pub open spec fn is_result(run: BatchTalk, reply: Reply, n: int, i: int, audio: AudioBuffer) -> bool {
    let k = run.talk.asked.len() - 1;
    if without_frames(run, k, n)[i] {
        audio.samples@.len() == 0 && audio.sample_rate == 24000
    } else {
        is_audio_of(run, k, n, i, audio) || (is_row_of(run, k, n, i) && reply == Reply::Audio(
            audio,
        ))
    }
}

/// Each text of a batch gets its own audio: the reply to the request for its own row of
/// the waveform. A text without frames gets none.
pub proof fn law_batch_audio(
    model: Qwen3TTS,
    requests: Seq<BatchRequest>,
    prompts: Seq<Option<&VoiceClonePrompt>>,
    run: BatchTalk,
    reply: Reply,
    audio: Vec<AudioBuffer>,
    i: int,
)
    requires
        requests.len() > 1,
        run.wf(),
        rounds_told(run.talk),
        model.starts_batch(requests, prompts, BatchTurn::Ask(run.states[0], run.talk.asked[0])),
        run.states.last().steps(reply, BatchTurn::Done(audio)),
        0 <= i < requests.len(),
    ensures
        audio@.len() == requests.len(),
        is_result(run, reply, requests.len() as int, i, audio@[i]),
{
    let k = run.talk.asked.len() - 1;
    let s = run.states[k];
    let n = requests.len() as int;
    let turn = BatchTurn::Done(audio);
    lemma_decode(model, requests, prompts, run, k);
    let none = without_frames(run, k, n);
    let codes = all_values(s.codes@);
    match (s.stage, reply) {
        (BatchStage::First { ready, zero }, Reply::Tensor(logits)) => {
            reveal(frames_come);
            let batch = choose|batch: Batch| #[trigger] s.proceeds(batch, codes, turn);
            lemma_silent(run, k, s, codes, audio, i);
        },
        (BatchStage::Choosing(p), Reply::Tensor(logits)) => {
            reveal(frames_come);
            let (batch, rows) = choose|batch: Batch, rows: Seq<Vec<u32>>| #[trigger]
                transferred(p.frames@, rows) && #[trigger] s.proceeds(
                    batch,
                    with_frames(codes, p.active@, values(rows)),
                    turn,
                );
            lemma_kept(run, k, codes, p.batch.done@, p.active@, p.frames@, rows);
            let now = with_frames(codes, p.active@, values(rows));
            lemma_silent(run, k, s, now, audio, i);
        },
        (BatchStage::Reading { order, waveform, next: p, results }, Reply::Audio(last)) => {
            reveal(read_come);
            let mine = order@[p as int] as int;
            lemma_number(none, order@, p as int);
            lemma_going_on(none);
            assert(indices(order@).len() == order@.len());
            assert(audio@ == results@.update(mine, last));
            if none[i] {
                assert(audio@[i] == results@[i]);
            } else if i != mine {
                let m = going_on(none, i) as int;
                assert(actives(none)[m] == i);
                assert(indices(order@)[p as int] == order@[p as int]);
                assert(is_audio_of(run, k, n, i, results@[i]));
            }
        },
        _ => {
            reveal(frames_come);
        },
    }
}

/// Where no text has a frame, none has audio.
proof fn lemma_silent(
    run: BatchTalk,
    k: int,
    s: BatchSynthesis,
    codes: Seq<Seq<Seq<u32>>>,
    audio: Vec<AudioBuffer>,
    i: int,
)
    requires
        are_told(run, k, codes),
        s.finishes(codes, BatchTurn::Done(audio)),
        0 <= i < codes.len(),
    ensures
        audio@.len() == codes.len(),
        audio@[i].samples@.len() == 0,
        audio@[i].sample_rate == 24000,
        frames_told(run, k, i).len() == 0,
{
    lemma_actives(empties(codes));
    assert(frames_of(codes[i]).len() == codes[i].len());
    assert(empties(codes)[i]);
}

} // verus!
