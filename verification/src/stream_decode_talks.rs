//! What of several texts is decoded chunk by chunk, and whose audio it becomes: told by
//! what was asked and replied in each round.
use crate::audio::AudioBuffer;
use crate::batch::{all_values, lemma_in_order, lemma_with_frames, with_frames};
use crate::batch_decode_talks::{frame_told, frames_of};
use crate::batch_start::{BatchReady, BatchStartTurn};
use crate::batch_stream::{
    are_codes, has_hiddens, is_next_lane, BatchStreaming, StreamStage, StreamTurn,
};
use crate::batch_synth_talks::texts_of;
use crate::batch_talks::{going_on, is_embedded, lemma_going_on};
use crate::codes::{values, CODEBOOKS};
use crate::grid::cells_of;
use crate::model::{stream_configs, BatchRequest, Qwen3TTS};
use crate::options::GenerationConfig;
use crate::request::{Reply, Request};
use crate::round::{actives, indices, lemma_actives, Batch, Played, Round, RoundPhase, RoundTurn};
use crate::sampler::TokenTurn;
use crate::stream_talks::{
    lemma_run, lemma_streams, reaches, resumes, stage_come, stream_leads, StreamTalk,
};
use crate::talks::Talk;
use crate::tensor::{grid, tensor_cells, tensor_dims};
use candle_core::Tensor;
use vstd::prelude::*;

verus! {

/// Which sequences have ended in the round at place `j`.
pub open spec fn done_at(run: StreamTalk, j: int) -> Seq<bool> {
    match run.states[j].stage {
        StreamStage::Playing(r) => r.batch.done@,
        _ => Seq::empty(),
    }
}

/// The frames of sequence `i` before place `k`, one for each round that it takes part in.
pub open spec fn frames_told(run: StreamTalk, k: int, i: int) -> Seq<Seq<int>>
    decreases k,
{
    if k <= 0 {
        Seq::empty()
    } else if run.talk.asked[k - 1] is BatchAcoustic && !done_at(run, k - 1)[i] {
        frames_told(run, k - 1, i).push(frame_told(run.talk, k - 1, i, done_at(run, k - 1)))
    } else {
        frames_told(run, k - 1, i)
    }
}

/// Whether these are the last of all frames.
pub open spec fn are_last(last: Seq<Seq<int>>, all: Seq<Seq<int>>) -> bool {
    last.len() <= all.len() && last == all.skip(all.len() - last.len())
}

/// One more frame is the last one of both.
proof fn lemma_last_more(last: Seq<Seq<int>>, all: Seq<Seq<int>>, frame: Seq<int>)
    requires
        are_last(last, all),
    ensures
        are_last(last.push(frame), all.push(frame)),
{
    let n = all.len() - last.len();
    assert(last.push(frame) =~= all.push(frame).skip(n)) by {
        assert forall|f: int| 0 <= f < last.len() implies last[f] == all[n + f] by {
            assert(all.skip(n)[f] == all[n + f]);
        }
    }
}

/// That what is buffered of each sequence are the last of its frames before place `k`.
pub open spec fn are_buffered(run: StreamTalk, k: int, codes: Seq<Seq<Seq<u32>>>) -> bool {
    forall|i: int|
        0 <= i < codes.len() ==> are_last(frames_of(#[trigger] codes[i]), frames_told(run, k, i))
}

/// The same, but for the last frame of each sequence that has not ended, which is this one.
pub open spec fn are_buffered_but(
    run: StreamTalk,
    k: int,
    codes: Seq<Seq<Seq<u32>>>,
    done: Seq<bool>,
    frames: Seq<Seq<int>>,
) -> bool {
    &&& done.len() == codes.len()
    &&& forall|i: int|
        0 <= i < codes.len() ==> are_last(
            if done[i] {
                frames_of(#[trigger] codes[i])
            } else {
                frames_of(codes[i]).push(frames[going_on(done, i) as int])
            },
            frames_told(run, k, i),
        )
}

/// What frames hold.
pub open spec fn contents(frames: Seq<Tensor>) -> Seq<Seq<int>> {
    frames.map_values(|t: Tensor| tensor_cells(t))
}

/// The frames of the sequences that have not ended, where these are their acoustic codes.
pub open spec fn framed(b: Batch, active: Seq<usize>, acoustic: Seq<Tensor>) -> Seq<Seq<int>> {
    Seq::new(
        active.len(),
        |p: int|
            seq![tensor_cells(b.tokens@[active[p] as int])[0]] + tensor_cells(acoustic[p]),
    )
}

/// That a chunk of sequence `i` is decoded at place `k`: the last of its frames so far.
pub open spec fn is_chunk_of(run: StreamTalk, k: int, i: int, t: Tensor) -> bool {
    let all = frames_told(run, k, i);
    let n = tensor_dims(t)[2] as int;
    &&& tensor_dims(t) == seq![1usize, CODEBOOKS, n as usize]
    &&& 0 < n <= all.len()
    &&& forall|f: int, q: int|
        0 <= f < n && 0 <= q < CODEBOOKS ==> tensor_cells(t)[q * n + f] == #[trigger] code_in(
            all[all.len() - n + f],
            q,
        )
}

/// The code of a frame in a codebook, or zero where it has none.
pub open spec fn code_in(frame: Seq<int>, q: int) -> int {
    if q < frame.len() {
        frame[q]
    } else {
        0
    }
}

/// That what is buffered is known where the request at place `k` waits for its reply.
#[verifier::opaque]
pub open spec fn chunk_come(run: StreamTalk, k: int, s: BatchStreaming) -> bool {
    let codes = all_values(s.buffers@);
    match s.stage {
        StreamStage::Playing(r) => match r.phase {
            RoundPhase::Embedding { .. } => are_buffered(run, k, codes),
            RoundPhase::Predicting { .. } => are_buffered(run, k, codes),
            RoundPhase::Summing { acoustic, .. } => are_buffered_but(
                run,
                k,
                codes,
                r.batch.done@,
                framed(r.batch, r.active@, acoustic@),
            ),
            RoundPhase::Layers { frames } => are_buffered_but(
                run,
                k,
                codes,
                r.batch.done@,
                contents(frames@),
            ),
            RoundPhase::Norm { frames } => are_buffered_but(
                run,
                k,
                codes,
                r.batch.done@,
                contents(frames@),
            ),
            RoundPhase::Head { frames, .. } => are_buffered_but(
                run,
                k,
                codes,
                r.batch.done@,
                contents(frames@),
            ),
        },
        StreamStage::Decoding { lane, .. } => {
            &&& are_buffered(run, k, codes)
            &&& run.talk.asked[k] matches Request::Decode(t)
            &&& is_chunk_of(run, k, lane as int, t)
        },
        StreamStage::Reading { lane, .. } => {
            &&& are_buffered(run, k, codes)
            &&& 0 < k
            &&& run.talk.asked[k - 1] matches Request::Decode(t)
            &&& is_chunk_of(run, k - 1, lane as int, t)
            &&& run.talk.replies[k - 1] matches Reply::Tensor(waveform)
            &&& run.talk.asked[k] == Request::ToAudio(waveform, 24000)
        },
        _ => are_buffered(run, k, codes),
    }
}

/// What a turn at place `k` comes to.
pub open spec fn turn_come(run: StreamTalk, k: int, turn: StreamTurn) -> bool {
    match turn {
        StreamTurn::Ask(next, ask) => run.talk.asked[k] == ask ==> chunk_come(run, k, next),
        StreamTurn::Chunk { rest, .. } => are_buffered(run, k, all_values(rest.buffers@)),
        StreamTurn::Passed { rest, .. } => are_buffered(run, k, all_values(rest.buffers@)),
        StreamTurn::End => true,
    }
}

/// What comes of decoding the frames of a sequence.
proof fn lemma_decodes(
    run: StreamTalk,
    k: int,
    s: BatchStreaming,
    batch: Option<Batch>,
    lane: int,
    turn: StreamTurn,
)
    requires
        are_buffered(run, k, all_values(s.buffers@)),
        0 <= lane < s.buffers@.len(),
        all_values(s.buffers@)[lane].len() > 0,
        s.decodes(batch, lane, turn),
    ensures
        turn_come(run, k, turn),
{
    let codes = all_values(s.buffers@);
    let now = codes.update(lane, Seq::<Seq<u32>>::empty());
    assert(codes.len() == s.buffers@.len());
    assert(are_buffered(run, k, now)) by {
        assert forall|i: int| 0 <= i < now.len() implies are_last(
            frames_of(#[trigger] now[i]),
            frames_told(run, k, i),
        ) by {
            assert(are_last(frames_of(codes[i]), frames_told(run, k, i)));
            if i == lane {
                let all = frames_told(run, k, i);
                assert(frames_of(now[i]) =~= all.skip(all.len() as int));
            } else {
                assert(now[i] == codes[i]);
            }
        }
    }
    if let StreamTurn::Ask(next, Request::Decode(t)) = turn {
        if run.talk.asked[k] == Request::Decode(t) {
            let frames = codes[lane];
            let all = frames_told(run, k, lane);
            let n = frames.len() as int;
            assert(frames == values(s.buffers@[lane]@));
            assert(frames.len() == s.buffers@[lane]@.len());
            assert(s.buffers@[lane].len() == s.buffers@[lane]@.len());
            assert(grid(t).dims == tensor_dims(t));
            assert(grid(t).cells == tensor_cells(t));
            assert(are_last(frames_of(frames), all));
            assert(frames_of(frames).len() == n);
            assert forall|f: int, q: int| 0 <= f < n && 0 <= q < CODEBOOKS implies tensor_cells(
                t,
            )[q * n + f] == #[trigger] code_in(all[all.len() - n + f], q) by {
                assert(all.skip(all.len() - n)[f] == all[all.len() - n + f]);
                assert(frames_of(frames)[f] == cells_of(frames[f]));
                assert(cells_of(frames[f]).len() == frames[f].len());
                lemma_cell(frames, f, q);
                if q < frames[f].len() {
                    assert(cells_of(frames[f])[q] == frames[f][q]);
                }
            }
            reveal(chunk_come);
        }
    }
}

/// A cell of a plane.
proof fn lemma_cell(codes: Seq<Seq<u32>>, f: int, q: int)
    requires
        0 <= f < codes.len(),
        0 <= q < CODEBOOKS,
    ensures
        crate::codes::plane(codes, codes.len())[q * codes.len() + f] == crate::codes::code_at(
            codes,
            f,
            q,
        ),
{
    let n = codes.len() as int;
    assert(0 <= q * n + f < CODEBOOKS * n) by (nonlinear_arith)
        requires
            0 <= f < n,
            0 <= q < CODEBOOKS,
    ;
    vstd::arithmetic::div_mod::lemma_fundamental_div_mod_converse(q * n + f, n, q, f);
}

/// What comes of the chunks at the end.
proof fn lemma_flushes(run: StreamTalk, k: int, s: BatchStreaming, from: int, turn: StreamTurn)
    requires
        0 <= from,
        are_buffered(run, k, all_values(s.buffers@)),
        s.flushes(from, turn),
    ensures
        turn_come(run, k, turn),
{
    let lane = choose|lane: int|
        {
            &&& #[trigger] is_next_lane(all_values(s.buffers@), from, lane)
            &&& if lane < s.count() {
                s.decodes(None, lane, turn)
            } else {
                turn == StreamTurn::End
            }
        };
    if lane < s.count() {
        lemma_decodes(run, k, s, None, lane, turn);
    }
}

/// What comes of the next tokens.
proof fn lemma_proceeds(run: StreamTalk, k: int, s: BatchStreaming, batch: Batch, turn: StreamTurn)
    requires
        are_buffered(run, k, all_values(s.buffers@)),
        s.proceeds(batch, turn),
    ensures
        turn_come(run, k, turn),
{
    let done = crate::round::ended(batch.done@, batch.ids@, batch.ends@, batch.index, s.limits@);
    if actives(done).len() > 0 {
        reveal(chunk_come);
    } else {
        lemma_flushes(run, k, s, 0, turn);
    }
}

/// What comes of the chunks between two rounds.
proof fn lemma_chunks(
    run: StreamTalk,
    k: int,
    s: BatchStreaming,
    batch: Batch,
    from: int,
    turn: StreamTurn,
)
    requires
        0 <= from,
        are_buffered(run, k, all_values(s.buffers@)),
        s.chunks(batch, from, turn),
    ensures
        turn_come(run, k, turn),
{
    let lane = choose|lane: int|
        {
            &&& #[trigger] is_next_lane(all_values(s.buffers@), from, lane)
            &&& if lane < s.count() {
                s.decodes(Some(batch), lane, turn)
            } else {
                s.proceeds(batch, turn)
            }
        };
    if lane < s.count() {
        lemma_decodes(run, k, s, Some(batch), lane, turn);
    } else {
        lemma_proceeds(run, k, s, batch, turn);
    }
}

/// What comes of the tokens of the sequences that have not ended.
proof fn lemma_samples_next(
    run: StreamTalk,
    k: int,
    s: BatchStreaming,
    played: Played,
    m: int,
    turn: StreamTurn,
)
    requires
        are_buffered(run, k, all_values(s.buffers@)),
        s.samples_next(played, m, turn),
    ensures
        turn_come(run, k, turn),
{
    if m < played.active@.len() {
        reveal(chunk_come);
    } else if played.batch.index % s.chunk_frames == 0 {
        lemma_chunks(run, k, s, played.batch, 0, turn);
    } else {
        lemma_proceeds(run, k, s, played.batch, turn);
    }
}

/// What comes of the first tokens.
proof fn lemma_samples_first(
    run: StreamTalk,
    k: int,
    s: BatchStreaming,
    ready: BatchReady,
    zero: Tensor,
    tokens: Seq<Tensor>,
    ids: Seq<u32>,
    turn: StreamTurn,
)
    requires
        are_buffered(run, k, all_values(s.buffers@)),
        s.samples_first(ready, zero, tokens, ids, turn),
    ensures
        turn_come(run, k, turn),
{
    if tokens.len() < s.count() {
        reveal(chunk_come);
    } else {
        let batch = choose|batch: Batch| #[trigger] s.proceeds(batch, turn);
        lemma_proceeds(run, k, s, batch, turn);
    }
}

/// What comes of the end of a chunk.
proof fn lemma_goes_on(
    run: StreamTalk,
    k: int,
    s: BatchStreaming,
    batch: Option<Batch>,
    lane: usize,
    turn: StreamTurn,
)
    requires
        are_buffered(run, k, all_values(s.buffers@)),
        s.goes_on(batch, lane, turn),
    ensures
        turn_come(run, k, turn),
{
    match batch {
        Some(b) => lemma_chunks(run, k, s, b, lane + 1, turn),
        None => lemma_flushes(run, k, s, lane + 1, turn),
    }
}

/// A turn comes to the next request.
proof fn lemma_reaches(
    run: StreamTalk,
    k: int,
    turn: StreamTurn,
    chunks: nat,
    next: BatchStreaming,
)
    requires
        turn_come(run, k, turn),
        reaches(turn, chunks, next, run.talk.asked[k]),
    ensures
        chunk_come(run, k, next),
    decreases chunks,
{
    match turn {
        StreamTurn::Ask(_, _) => {},
        StreamTurn::Chunk { rest, .. } => {
            let t = choose|t: StreamTurn| #[trigger]
                resumes(rest, t) && reaches(t, (chunks - 1) as nat, next, run.talk.asked[k]);
            if let StreamStage::Sent { batch, lane } = rest.stage {
                lemma_goes_on(run, k, rest.idle(), batch, lane, t);
            }
            lemma_reaches(run, k, t, (chunks - 1) as nat, next);
        },
        StreamTurn::Passed { rest, .. } => {
            let t = choose|t: StreamTurn| #[trigger]
                resumes(rest, t) && reaches(t, (chunks - 1) as nat, next, run.talk.asked[k]);
            if let StreamStage::Sent { batch, lane } = rest.stage {
                lemma_goes_on(run, k, rest.idle(), batch, lane, t);
            }
            lemma_reaches(run, k, t, (chunks - 1) as nat, next);
        },
        StreamTurn::End => {},
    }
}

/// Which state a round is in decides whether acoustic codes are asked for.
proof fn lemma_asks(
    talk: Talk,
    k: int,
    texts: Seq<Seq<char>>,
    configs: Seq<GenerationConfig>,
    s: BatchStreaming,
)
    requires
        s.wf(),
        stage_come(talk, k, texts, configs, s),
    ensures
        talk.asked[k] is BatchAcoustic <==> (s.stage matches StreamStage::Playing(r)
            && r.phase is Predicting),
        talk.asked[k] is Decode <==> s.stage is Decoding,
        talk.asked[k] is ToAudio <==> s.stage is Reading,
{
    reveal(stage_come);
}

/// The tokens of a round were embedded before its acoustic codes are asked for.
proof fn lemma_tokens(
    run: StreamTalk,
    k: int,
    texts: Seq<Seq<char>>,
    configs: Seq<GenerationConfig>,
    r: Round,
    i: int,
)
    requires
        run.states[k].wf(),
        stage_come(run.talk, k, texts, configs, run.states[k]),
        run.states[k].stage == StreamStage::Playing(r),
        r.phase is Predicting,
        0 <= i < r.batch.done@.len(),
        !r.batch.done@[i],
    ensures
        ({
            let n = going_on(r.batch.done@, r.batch.done@.len() as int);
            run.talk.asked[k - n + going_on(r.batch.done@, i)] == Request::EmbedToken(
                r.batch.tokens@[i],
            )
        }),
{
    reveal(stage_come);
    lemma_going_on(r.batch.done@);
    let p = going_on(r.batch.done@, i) as int;
    let embeds = r.phase->Predicting_embeds;
    assert(indices(r.active@).len() == r.active@.len());
    assert(indices(r.active@)[p] == r.active@[p]);
    assert(is_embedded(
        run.talk,
        k - r.active@.len() + p,
        r.batch.tokens@[r.active@[p] as int],
        embeds@[p],
    ));
}

/// The acoustic codes of a round come.
proof fn lemma_predicted(
    run: StreamTalk,
    k: int,
    texts: Seq<Seq<char>>,
    configs: Seq<GenerationConfig>,
    s: BatchStreaming,
    r: Round,
    acoustic: Vec<Tensor>,
)
    requires
        0 <= k,
        s == run.states[k],
        s.wf(),
        stage_come(run.talk, k, texts, configs, s),
        s.stage == StreamStage::Playing(r),
        r.phase is Predicting,
        are_buffered(run, k, all_values(s.buffers@)),
        run.talk.replies[k] == Reply::Tensors(acoustic),
    ensures
        are_buffered_but(
            run,
            k + 1,
            all_values(s.buffers@),
            r.batch.done@,
            framed(r.batch, r.active@, acoustic@),
        ),
{
    lemma_asks(run.talk, k, texts, configs, s);
    let codes = all_values(s.buffers@);
    let done = r.batch.done@;
    let frames = framed(r.batch, r.active@, acoustic@);
    assert(codes.len() == s.buffers@.len());
    assert(done.len() == codes.len());
    lemma_going_on(done);
    assert(indices(r.active@).len() == r.active@.len());
    assert forall|i: int| 0 <= i < codes.len() implies are_last(
        if done[i] {
            frames_of(#[trigger] codes[i])
        } else {
            frames_of(codes[i]).push(frames[going_on(done, i) as int])
        },
        frames_told(run, k + 1, i),
    ) by {
        assert(are_last(frames_of(codes[i]), frames_told(run, k, i)));
        if !done[i] {
            let p = going_on(done, i) as int;
            assert(indices(r.active@)[p] == r.active@[p]);
            lemma_tokens(run, k, texts, configs, r, i);
            assert(frame_told(run.talk, k, i, done) == frames[p]);
            lemma_last_more(frames_of(codes[i]), frames_told(run, k, i), frames[p]);
        }
    }
}

/// The frames of a round are those of its tokens and acoustic codes.
proof fn lemma_framed(r: Round, acoustic: Seq<Tensor>, frames: Seq<Tensor>)
    requires
        crate::round::are_round_frames(r.batch.tokens@, r.active@, acoustic, frames),
    ensures
        contents(frames) == framed(r.batch, r.active@, acoustic),
{
    assert forall|p: int| 0 <= p < frames.len() implies #[trigger] contents(frames)[p] == framed(
        r.batch,
        r.active@,
        acoustic,
    )[p] by {
        assert(grid(frames[p]).cells == tensor_cells(frames[p]));
    }
    assert(contents(frames) =~= framed(r.batch, r.active@, acoustic));
}

/// The frames of a round are buffered.
proof fn lemma_kept(
    run: StreamTalk,
    k: int,
    codes: Seq<Seq<Seq<u32>>>,
    done: Seq<bool>,
    active: Seq<usize>,
    frames: Seq<Tensor>,
    rows: Seq<Vec<u32>>,
)
    requires
        are_buffered_but(run, k, codes, done, contents(frames)),
        indices(active) == actives(done),
        frames.len() == active.len(),
        are_codes(frames, rows),
    ensures
        are_buffered(run, k, with_frames(codes, active, values(rows))),
{
    let vals = values(rows);
    let now = with_frames(codes, active, vals);
    assert(vals.len() == rows.len());
    lemma_in_order(done, active);
    lemma_with_frames(codes, active, vals);
    lemma_going_on(done);
    lemma_actives(done);
    assert(indices(active).len() == active.len());
    assert forall|i: int| 0 <= i < now.len() implies are_last(
        frames_of(#[trigger] now[i]),
        frames_told(run, k, i),
    ) by {
        assert(are_last(
            if done[i] {
                frames_of(codes[i])
            } else {
                frames_of(codes[i]).push(contents(frames)[going_on(done, i) as int])
            },
            frames_told(run, k, i),
        ));
        if done[i] {
            assert forall|p: int| 0 <= p < active.len() implies active[p] != i by {
                assert(indices(active)[p] == active[p]);
            }
        } else {
            let p = going_on(done, i) as int;
            assert(indices(active)[p] == active[p]);
            assert(now[active[p] as int] == codes[active[p] as int].push(vals[p]));
            assert(cells_of(rows[p]@) == tensor_cells(frames[p]));
            assert(frames_of(now[i]) =~= frames_of(codes[i]).push(contents(frames)[p]));
        }
    }
}

/// A round of a streamed synthesis leads on.
proof fn lemma_plays(
    run: StreamTalk,
    k: int,
    texts: Seq<Seq<char>>,
    configs: Seq<GenerationConfig>,
    s: BatchStreaming,
    turn: StreamTurn,
)
    requires
        0 <= k,
        s == run.states[k],
        s.wf(),
        stage_come(run.talk, k, texts, configs, s),
        chunk_come(run, k, s),
        s.stage is Playing,
        s.steps(run.talk.replies[k], turn),
        turn.wf(),
    ensures
        turn_come(run, k + 1, turn),
{
    lemma_asks(run.talk, k, texts, configs, s);
    let r = s.stage->Playing_0;
    let reply = run.talk.replies[k];
    let idle = s.idle();
    let codes = all_values(s.buffers@);
    let t = choose|t: RoundTurn| #[trigger]
        r.steps(reply, t) && match t {
            RoundTurn::Ask(r, ask) => turn == StreamTurn::Ask(
                BatchStreaming { stage: StreamStage::Playing(r), ..s },
                ask,
            ),
            RoundTurn::Played(p) => idle.plays(p, turn),
        };
    match t {
        RoundTurn::Ask(next, ask) => {
            reveal(chunk_come);
            match (r.phase, reply) {
                (RoundPhase::Predicting { .. }, Reply::Tensors(acoustic)) => {
                    lemma_predicted(run, k, texts, configs, s, r, acoustic);
                },
                (RoundPhase::Summing { acoustic, .. }, Reply::Tensor(_)) => {
                    if let RoundPhase::Layers { frames } = next.phase {
                        lemma_framed(r, acoustic@, frames@);
                    }
                },
                _ => {},
            }
        },
        RoundTurn::Played(p) => {
            assert(are_buffered_but(run, k + 1, codes, p.batch.done@, contents(p.frames@))) by {
                reveal(chunk_come);
            }
            let (rows, q, rest) = choose|rows: Seq<Vec<u32>>, q: Played, rest: BatchStreaming|
                {
                    &&& #[trigger] are_codes(p.frames@, rows)
                    &&& has_hiddens(p, q)
                    &&& all_values(rest.buffers@) == with_frames(codes, p.active@, values(rows))
                    &&& #[trigger] rest.samples_next(q, 0, turn)
                };
            lemma_kept(run, k + 1, codes, p.batch.done@, p.active@, p.frames@, rows);
            lemma_samples_next(run, k + 1, rest, q, 0, turn);
        },
    }
}

/// A reply leads on in a streamed synthesis.
proof fn lemma_chunk(
    run: StreamTalk,
    k: int,
    texts: Seq<Seq<char>>,
    configs: Seq<GenerationConfig>,
    s: BatchStreaming,
    turn: StreamTurn,
)
    requires
        0 <= k,
        s == run.states[k],
        s.wf(),
        stage_come(run.talk, k, texts, configs, s),
        chunk_come(run, k, s),
        s.steps(run.talk.replies[k], turn),
        turn.wf(),
    ensures
        turn_come(run, k + 1, turn),
{
    lemma_asks(run.talk, k, texts, configs, s);
    let reply = run.talk.replies[k];
    let idle = s.idle();
    if s.stage is Playing {
        lemma_plays(run, k, texts, configs, s, turn);
    } else {
        assert(are_buffered(run, k + 1, all_values(idle.buffers@))) by {
            reveal(chunk_come);
        }
        match s.stage {
            StreamStage::Prompts(p) => {
                reveal(chunk_come);
            },
            StreamStage::Starting(b) => {
                let t = choose|t: BatchStartTurn| #[trigger]
                    b.steps(reply, t) && match t {
                        BatchStartTurn::Ask(b, ask) => turn == StreamTurn::Ask(
                            BatchStreaming { stage: StreamStage::Starting(b), ..s },
                            ask,
                        ),
                        BatchStartTurn::Ready(ready) => exists|zero: Tensor| #[trigger]
                            idle.samples_first(ready, zero, Seq::empty(), Seq::empty(), turn),
                    };
                match t {
                    BatchStartTurn::Ask(_, _) => {
                        reveal(chunk_come);
                    },
                    BatchStartTurn::Ready(ready) => {
                        let zero = choose|zero: Tensor| #[trigger]
                            idle.samples_first(ready, zero, Seq::empty(), Seq::empty(), turn);
                        lemma_samples_first(
                            run,
                            k + 1,
                            idle,
                            ready,
                            zero,
                            Seq::empty(),
                            Seq::empty(),
                            turn,
                        );
                    },
                }
            },
            StreamStage::First { ready, zero, tokens, ids, step } => {
                let t = choose|t: TokenTurn| #[trigger]
                    step.steps(reply, t) && idle.takes_first(ready, zero, tokens, ids, t, turn);
                match t {
                    TokenTurn::Ask(_, _) => {
                        reveal(chunk_come);
                    },
                    TokenTurn::Token { id, token, mask } => {
                        let rest = choose|rest: BatchStreaming|
                            rest == (BatchStreaming { masks: rest.masks, ..idle })
                                && #[trigger] rest.samples_first(
                                ready,
                                zero,
                                tokens@.push(token),
                                ids@.push(id),
                                turn,
                            );
                        lemma_samples_first(
                            run,
                            k + 1,
                            rest,
                            ready,
                            zero,
                            tokens@.push(token),
                            ids@.push(id),
                            turn,
                        );
                    },
                }
            },
            StreamStage::Next { played, k: m, step } => {
                let t = choose|t: TokenTurn| #[trigger]
                    step.steps(reply, t) && idle.takes_next(played, m, t, turn);
                match t {
                    TokenTurn::Ask(_, _) => {
                        reveal(chunk_come);
                    },
                    TokenTurn::Token { id, token, mask } => {
                        let (rest, q) = choose|rest: BatchStreaming, q: Played|
                            rest == (BatchStreaming { masks: rest.masks, ..idle })
                                && #[trigger] rest.samples_next(q, m + 1, turn);
                        lemma_samples_next(run, k + 1, rest, q, m + 1, turn);
                    },
                }
            },
            StreamStage::Decoding { batch, lane } => {
                if reply is Failed {
                    lemma_goes_on(run, k + 1, idle, batch, lane, turn);
                } else {
                    reveal(chunk_come);
                }
            },
            StreamStage::Reading { batch, lane } => {
                if reply is Failed {
                    lemma_goes_on(run, k + 1, idle, batch, lane, turn);
                }
            },
            _ => {},
        }
    }
}

/// Each request of a streamed synthesis finds what is buffered told.
proof fn lemma_stream(run: StreamTalk, model: Qwen3TTS, requests: Seq<BatchRequest>, k: int)
    requires
        run.streams(model, requests),
        0 <= k < run.talk.asked.len(),
    ensures
        run.states[k].wf(),
        stage_come(run.talk, k, texts_of(requests), stream_configs(requests), run.states[k]),
        chunk_come(run, k, run.states[k]),
    decreases k,
{
    let texts = texts_of(requests);
    let configs = stream_configs(requests);
    lemma_streams(run, model, requests);
    lemma_run(run, texts, configs, k);
    if k == 0 {
        reveal(chunk_come);
        let codes = all_values(run.states[0].buffers@);
        assert forall|i: int| 0 <= i < codes.len() implies are_last(
            frames_of(#[trigger] codes[i]),
            frames_told(run, 0, i),
        ) by {
            assert(codes[i].len() == 0);
            assert(frames_of(codes[i]) =~= frames_told(run, 0, i).skip(0));
        }
    } else {
        lemma_stream(run, model, requests, k - 1);
        let s = run.states[k - 1];
        let next = run.states[k];
        let reply = run.talk.replies[k - 1];
        assert(stream_leads(s, reply, run.states[k - 1 + 1], run.talk.asked[k - 1 + 1]));
        assert(exists|turn: StreamTurn, chunks: nat|
            turn.wf() && #[trigger] s.steps(reply, turn) && #[trigger] reaches(
                turn,
                chunks,
                next,
                run.talk.asked[k],
            )) by {
            reveal(stream_leads);
        }
        let (turn, chunks) = choose|turn: StreamTurn, chunks: nat|
            turn.wf() && #[trigger] s.steps(reply, turn) && #[trigger] reaches(
                turn,
                chunks,
                next,
                run.talk.asked[k],
            );
        lemma_chunk(run, k - 1, texts, configs, s, turn);
        lemma_reaches(run, k, turn, chunks, next);
    }
}

/// Each chunk of a streamed batch is of one text: what is decoded are the last frames of
/// one sequence, of each round that it takes part in its own token and its own acoustic
/// codes. The audio of the waveform is asked for next.
pub proof fn law_stream_decoded(
    run: StreamTalk,
    model: Qwen3TTS,
    requests: Seq<BatchRequest>,
    k: int,
)
    requires
        run.streams(model, requests),
        0 <= k < run.talk.asked.len(),
    ensures
        run.talk.asked[k] matches Request::Decode(t) ==> exists|i: int|
            0 <= i < requests.len() && #[trigger] is_chunk_of(run, k, i, t),
        run.talk.asked[k] matches Request::ToAudio(waveform, rate) ==> 0 < k
            && run.talk.asked[k - 1] is Decode && run.talk.replies[k - 1] == Reply::Tensor(waveform)
            && rate == 24000,
{
    lemma_stream(run, model, requests, k);
    let s = run.states[k];
    lemma_asks(run.talk, k, texts_of(requests), stream_configs(requests), s);
    reveal(chunk_come);
    assert(s.buffers@.len() == requests.len()) by {
        reveal(stage_come);
    }
    if let StreamStage::Decoding { lane, .. } = s.stage {
        if let Request::Decode(t) = run.talk.asked[k] {
            assert(is_chunk_of(run, k, lane as int, t));
        }
    }
}

/// A chunk that is handed out for a text is the audio of that text: the reply to the
/// request for the audio of what was decoded of its own frames.
pub proof fn law_stream_audio(
    run: StreamTalk,
    model: Qwen3TTS,
    requests: Seq<BatchRequest>,
    reply: Reply,
    sequence: usize,
    audio: AudioBuffer,
    rest: BatchStreaming,
)
    requires
        run.streams(model, requests),
        run.talk.asked.last() is ToAudio,
        run.states.last().steps(reply, StreamTurn::Chunk { sequence, audio, rest }),
    ensures
        reply == Reply::Audio(audio),
        run.talk.asked.len() > 1,
        run.talk.asked[run.talk.asked.len() - 2] matches Request::Decode(t) && is_chunk_of(
            run,
            run.talk.asked.len() - 2,
            sequence as int,
            t,
        ),
{
    let k = run.talk.asked.len() - 1;
    lemma_stream(run, model, requests, k);
    lemma_asks(
        run.talk,
        k,
        texts_of(requests),
        stream_configs(requests),
        run.states[k],
    );
    reveal(chunk_come);
}

} // verus!
