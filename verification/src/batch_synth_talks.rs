//! What the synthesis of several texts asks for, round after round: each sequence goes
//! by its own text, its own limit and its own end.
use crate::batch_prompt::PromptTurn;
use crate::batch_runs::batch_leads;
use crate::batch_start::{BatchReady, BatchStart, BatchStartTurn};
use crate::batch_synth::{are_choices, BatchStage, BatchSynthesis, BatchTurn};
use crate::batch_talks::{
    batch_come, going_on, hiddens_come, is_embedded, is_predicted, is_prompt_len, is_round, is_row_hidden,
    lemma_batch_stays, lemma_going_on, lemma_prompts, lemma_ready_stays, lemma_round, lemma_start,
    lemma_start_begins, played_come, prompts_come, ready_come, ready_known, round_come, start_come,
};
use crate::clone::VoiceClonePrompt;
use crate::generation::are_logits;
use crate::grid::Grid;
use crate::model::{batch_ends, batch_limits, BatchRequest, Qwen3TTS};
use crate::options::{greatest, options_or_default};
use crate::request::{Reply, Request};
use crate::round::{actives, ended, indices, Batch, Round, RoundTurn};
use crate::talks::{are_read, Talk, Task};
use crate::tensor::{grid, is_found, tensor_cells, tensor_dims, tensor_location};
use candle_core::Tensor;
use vstd::prelude::*;

verus! {

/// A synthesis of several texts as far as it has come, with what was asked and replied.
pub struct BatchTalk {
    /// The state in which each request waits for its reply.
    pub states: Seq<BatchSynthesis>,
    pub talk: Talk,
}

impl BatchTalk {
    /// Whether each reply leads from one request to the next.
    pub open spec fn wf(self) -> bool {
        &&& self.states.len() == self.talk.asked.len()
        &&& self.talk.replies.len() + 1 == self.talk.asked.len()
        &&& self.states.last().wf()
        &&& forall|i: int|
            0 <= i < self.talk.replies.len() ==> batch_leads(
                self.states[i],
                #[trigger] self.talk.replies[i],
                BatchTurn::Ask(self.states[i + 1], self.talk.asked[i + 1]),
            )
    }
}

/// That this is the greatest code of row `i`, the first one from the left. It is said of
/// logits on the CPU, with no more columns than numbers can count.
pub open spec fn is_greatest(logits: Tensor, i: int, id: int) -> bool {
    &&& tensor_dims(logits).len() == 2
    &&& tensor_location(logits) is Cpu && tensor_dims(logits)[1] <= u32::MAX && 0 <= i
        < tensor_dims(logits)[0] ==> is_found(
        tensor_cells(logits),
        tensor_dims(logits)[1] as int,
        i,
        id,
    )
}

/// That the token of each sequence is the greatest code of its own row of the suppressed
/// logits.
pub open spec fn are_greatest(talk: Talk, k: int, b: Batch) -> bool {
    exists|logits: Tensor| #[trigger]
        talk.told(k, Task::Suppress, logits) && forall|i: int|
            0 <= i < b.tokens@.len() ==> is_greatest(
                logits,
                i,
                tensor_cells(#[trigger] b.tokens@[i])[0],
            )
}

/// That the end of sequence `i` was chosen at place `j`.
pub open spec fn is_end_at(talk: Talk, j: int, i: int, end: Option<u32>) -> bool {
    &&& talk.asked[j] is Suppress
    &&& talk.replies[j] matches Reply::Tensor(logits)
    &&& end matches Some(id)
    &&& is_greatest(logits, i, id as int)
}

/// That a sequence has ended where its end was chosen or it has as many frames as it may
/// have, and not before.
pub open spec fn is_done(talk: Talk, k: int, i: int, end: Option<u32>, limit: usize, token: Tensor, done: bool) -> bool {
    let f = talk.count(k, Task::Round);
    if done {
        f >= limit || exists|j: int| 0 <= j < k && #[trigger] is_end_at(talk, j, i, end)
    } else {
        &&& f < limit
        &&& end matches Some(id) ==> tensor_cells(token)[0] != id
    }
}

/// That the sequences have ended where they have to.
pub open spec fn are_done(talk: Talk, k: int, ends: Seq<Option<u32>>, limits: Seq<usize>, b: Batch) -> bool {
    forall|i: int|
        0 <= i < b.done@.len() ==> is_done(
            talk,
            k,
            i,
            ends[i],
            limits[i],
            b.tokens@[i],
            #[trigger] b.done@[i],
        )
}

/// Which sequences have ended in the round at place `j`.
pub open spec fn done_at(run: BatchTalk, j: int) -> Seq<bool> {
    match run.states[j].stage {
        BatchStage::Playing(r) => r.batch.done@,
        _ => Seq::empty(),
    }
}

/// The positions of the prompts of sequences.
pub open spec fn base_of(b: Batch) -> usize {
    (b.offset - b.index) as usize
}

/// That a synthesis of several texts waits for the reply to the request at place `k`.
#[verifier::opaque]
pub open spec fn stage_come(talk: Talk, k: int, texts: Seq<Seq<char>>, s: BatchSynthesis) -> bool {
    &&& s.limits@.len() == texts.len()
    &&& s.ends@.len() == texts.len()
    &&& s.codes@.len() == texts.len()
    &&& match s.stage {
        BatchStage::Single(_) => false,
        BatchStage::Prompts(p) => prompts_come(talk, k, texts, p),
        BatchStage::Starting(b) => start_come(talk, k, texts, b),
        BatchStage::First { ready, zero } => {
            &&& ready_come(talk, k, texts, ready)
            &&& talk.asked[k] is Suppress
            &&& forall|i: int|
                0 <= i < tensor_cells(zero).len() ==> #[trigger] tensor_cells(zero)[i] == 0
        },
        BatchStage::Playing(r) => {
            &&& round_come(talk, k, texts, base_of(r.batch), r)
            &&& are_greatest(talk, k, r.batch)
            &&& r.phase is Norm || r.phase is Head || are_done(talk, k, s.ends@, s.limits@, r.batch)
            &&& has_ends(talk, k, s.ends@, s.limits@, r.batch)
        },
        BatchStage::Choosing(p) => {
            &&& played_come(talk, k, texts, base_of(p.batch), p)
            &&& 0 < k
            &&& talk.asked[k - 1] is CodecHead
            &&& talk.replies[k - 1] matches Reply::Tensor(raw)
            &&& talk.asked[k] matches Request::Suppress(logits)
            &&& are_read(raw, logits)
            &&& has_ends(talk, k, s.ends@, s.limits@, p.batch)
        },
        BatchStage::Decoding(_) => talk.asked[k] is Decode,
        BatchStage::Reading { .. } => talk.asked[k] is ToAudio,
    }
}

/// That the sequences that have ended had to.
pub open spec fn has_ends(talk: Talk, k: int, ends: Seq<Option<u32>>, limits: Seq<usize>, b: Batch) -> bool {
    forall|i: int|
        0 <= i < b.done@.len() && #[trigger] b.done@[i] ==> talk.count(k, Task::Round) >= limits[i]
            || exists|j: int| 0 <= j < k && #[trigger] is_end_at(talk, j, i, ends[i])
}

/// The sequences that had to end had to.
proof fn lemma_ends_stay(talk: Talk, k: int, ends: Seq<Option<u32>>, limits: Seq<usize>, b: Batch)
    requires
        0 <= k,
        has_ends(talk, k, ends, limits, b),
    ensures
        has_ends(talk, k + 1, ends, limits, b),
{
    assert forall|i: int| 0 <= i < b.done@.len() && #[trigger] b.done@[i] implies talk.count(
        k + 1,
        Task::Round,
    ) >= limits[i] || exists|j: int| 0 <= j < k + 1 && #[trigger] is_end_at(talk, j, i, ends[i]) by {
        if talk.count(k, Task::Round) < limits[i] {
            let j = choose|j: int| 0 <= j < k && #[trigger] is_end_at(talk, j, i, ends[i]);
            assert(0 <= j < k + 1 && is_end_at(talk, j, i, ends[i]));
        }
    }
}

/// Tokens stay the greatest codes, where something else is asked for.
proof fn lemma_greatest_stay(talk: Talk, k: int, b: Batch)
    requires
        0 <= k,
        are_greatest(talk, k, b),
        !(talk.asked[k] is Suppress),
    ensures
        are_greatest(talk, k + 1, b),
{
    let logits = choose|logits: Tensor| #[trigger]
        talk.told(k, Task::Suppress, logits) && forall|i: int|
            0 <= i < b.tokens@.len() ==> is_greatest(
                logits,
                i,
                tensor_cells(#[trigger] b.tokens@[i])[0],
            );
    assert(talk.told(k + 1, Task::Suppress, logits));
}

/// Tokens that were chosen are the greatest codes of their rows.
proof fn lemma_greatest(logits: Tensor, b: Batch)
    requires
        b.wf(),
        are_choices(grid(logits), b.tokens@, b.ids@),
    ensures
        forall|i: int|
            0 <= i < b.tokens@.len() ==> is_greatest(
                logits,
                i,
                tensor_cells(#[trigger] b.tokens@[i])[0],
            ),
{
    let line = choose|line: Grid|
        {
            &&& #[trigger] crate::batch::is_greedy(grid(logits), line)
            &&& b.tokens@.len() <= line.cells.len()
            &&& b.ids@.len() == b.tokens@.len()
            &&& forall|i: int|
                0 <= i < b.tokens@.len() ==> grid(#[trigger] b.tokens@[i])
                    == crate::batch::at_position(line, i as usize)
            &&& forall|i: int| 0 <= i < b.tokens@.len() ==> #[trigger] b.ids@[i] == line.cells[i]
        };
    assert(grid(logits).cells == tensor_cells(logits));
    assert forall|i: int| 0 <= i < b.tokens@.len() implies is_greatest(
        logits,
        i,
        tensor_cells(#[trigger] b.tokens@[i])[0],
    ) by {
        assert(b.ids@[i] == line.cells[i]);
        assert(tensor_cells(b.tokens@[i])[0] == b.ids@[i]);
    }
}

/// The next round starts with what was asked and replied.
proof fn lemma_proceeds(
    talk: Talk,
    k: int,
    texts: Seq<Seq<char>>,
    s: BatchSynthesis,
    batch: Batch,
    logits: Tensor,
    codes: Seq<Seq<Seq<u32>>>,
    next: BatchSynthesis,
)
    requires
        0 <= k,
        next.wf(),
        batch_come(talk, k + 1, texts, base_of(batch), batch),
        hiddens_come(talk, k + 1, base_of(batch), batch),
        talk.count(k + 1, Task::Round) == batch.index,
        talk.asked[k] is Suppress,
        talk.replies[k] == Reply::Tensor(logits),
        are_choices(grid(logits), batch.tokens@, batch.ids@),
        has_ends(talk, k + 1, s.ends@, s.limits@, batch),
        batch.ends@ == s.ends@,
        s.limits@.len() == texts.len(),
        s.ends@.len() == texts.len(),
        codes.len() == texts.len(),
        s.proceeds(batch, codes, BatchTurn::Ask(next, talk.asked[k + 1])),
    ensures
        stage_come(talk, k + 1, texts, next),
        next.limits == s.limits,
        next.ends == s.ends,
{
    reveal(stage_come);
    let done = ended(batch.done@, batch.ids@, batch.ends@, batch.index, s.limits@);
    assert(crate::batch::all_values(next.codes@).len() == next.codes@.len());
    if actives(done).len() > 0 {
        let r = next.stage->Playing_0;
        lemma_greatest(logits, batch);
        assert(talk.told(k + 1, Task::Suppress, logits));
        assert(are_greatest(talk, k + 1, r.batch));
        assert(hiddens_come(talk, k + 1, base_of(batch), r.batch)) by {
            assert forall|i: int| 0 <= i < r.batch.last_hiddens@.len() && !r.batch.done@[i] implies is_row_hidden(
                talk,
                k + 1,
                i,
                base_of(batch),
                #[trigger] r.batch.last_hiddens@[i],
            ) by {
                assert(!batch.done@[i]);
            }
        }
        assert forall|i: int| 0 <= i < r.batch.done@.len() implies is_done(
            talk,
            k + 1,
            i,
            s.ends@[i],
            s.limits@[i],
            r.batch.tokens@[i],
            #[trigger] r.batch.done@[i],
        ) by {
            assert(tensor_cells(batch.tokens@[i])[0] == batch.ids@[i]);
            assert(r.batch.done@[i] == done[i]);
            if done[i] && !batch.done@[i] && batch.index < s.limits@[i] {
                assert(is_end_at(talk, k, i, s.ends@[i]));
                assert(0 <= k < k + 1);
            }
            assert(batch.done@[i] ==> done[i]);
        }
        assert(has_ends(talk, k + 1, s.ends@, s.limits@, r.batch)) by {
            assert forall|i: int| 0 <= i < r.batch.done@.len() && #[trigger] r.batch.done@[i] implies talk.count(
                k + 1,
                Task::Round,
            ) >= s.limits@[i] || exists|j: int|
                0 <= j < k + 1 && #[trigger] is_end_at(talk, j, i, s.ends@[i]) by {
                assert(is_done(
                    talk,
                    k + 1,
                    i,
                    s.ends@[i],
                    s.limits@[i],
                    r.batch.tokens@[i],
                    r.batch.done@[i],
                ));
            }
        }
        assert(r.active@[0] == indices(r.active@)[0]);
        assert(indices(r.active@).len() == r.active@.len());
        assert(round_come(talk, k + 1, texts, base_of(r.batch), r));
    }
}


/// The sequences have ended where they have to, as long as no round is played.
proof fn lemma_done_stays(talk: Talk, k: int, ends: Seq<Option<u32>>, limits: Seq<usize>, b: Batch)
    requires
        0 <= k,
        are_done(talk, k, ends, limits, b),
        !(talk.asked[k] is Forward),
    ensures
        are_done(talk, k + 1, ends, limits, b),
{
    assert forall|i: int| 0 <= i < b.done@.len() implies is_done(
        talk,
        k + 1,
        i,
        ends[i],
        limits[i],
        b.tokens@[i],
        #[trigger] b.done@[i],
    ) by {
        assert(is_done(talk, k, i, ends[i], limits[i], b.tokens@[i], b.done@[i]));
        if b.done@[i] && talk.count(k, Task::Round) < limits[i] {
            let j = choose|j: int| 0 <= j < k && #[trigger] is_end_at(talk, j, i, ends[i]);
            assert(0 <= j < k + 1 && is_end_at(talk, j, i, ends[i]));
        }
    }
}

/// Where no sequence goes on, the frames are decoded.
proof fn lemma_finishes(
    talk: Talk,
    k: int,
    texts: Seq<Seq<char>>,
    s: BatchSynthesis,
    batch: Batch,
    codes: Seq<Seq<Seq<u32>>>,
    next: BatchSynthesis,
)
    requires
        s.limits@.len() == texts.len(),
        s.ends@.len() == texts.len(),
        codes.len() == texts.len(),
        s.proceeds(batch, codes, BatchTurn::Ask(next, talk.asked[k + 1])),
        !(next.stage is Playing),
    ensures
        stage_come(talk, k + 1, texts, next),
        next.limits == s.limits,
        next.ends == s.ends,
{
    reveal(stage_come);
    assert(crate::batch::all_values(next.codes@).len() == next.codes@.len());
}

/// The first tokens start the rounds.
proof fn lemma_first(talk: Talk, k: int, texts: Seq<Seq<char>>, s: BatchSynthesis, next: BatchSynthesis)
    requires
        0 <= k,
        s.wf(),
        next.wf(),
        stage_come(talk, k, texts, s),
        s.stage is First,
        s.steps(talk.replies[k], BatchTurn::Ask(next, talk.asked[k + 1])),
    ensures
        stage_come(talk, k + 1, texts, next),
        next.limits == s.limits,
        next.ends == s.ends,
{
    reveal(stage_come);
    let ready = s.stage->First_ready;
    let zero = s.stage->First_zero;
    let logits = talk.replies[k]->Tensor_0;
    let turn = BatchTurn::Ask(next, talk.asked[k + 1]);
    let codes = crate::batch::all_values(s.codes@);
    let batch = choose|batch: Batch|
        {
            &&& batch.ends@ == s.ends@
            &&& batch.offset == ready.offset
            &&& batch.index == 0
            &&& batch.pad == ready.pad
            &&& batch.zero == zero
            &&& batch.last_hiddens == ready.last_hiddens
            &&& batch.trailings == ready.trailings
            &&& batch.lens == ready.lens
            &&& batch.done@ == Seq::new(ready.last_hiddens@.len(), |i: int| false)
            &&& batch.tokens@.len() == ready.last_hiddens@.len()
            &&& are_choices(grid(logits), batch.tokens@, batch.ids@)
            &&& #[trigger] s.proceeds(batch, codes, turn)
        };
    assert(codes.len() == s.codes@.len());
    if next.stage is Playing {
        let r = next.stage->Playing_0;
        assert(r.batch == (Batch { done: r.batch.done, ..batch }));
        assert(batch.wf());
        lemma_ready_stays(talk, k, texts, ready);
        lemma_ready_batch(talk, k + 1, texts, ready, batch);
        lemma_proceeds(talk, k, texts, s, batch, logits, codes, next);
    } else {
        lemma_finishes(talk, k, texts, s, batch, codes, next);
    }
}

/// What generation starts from is known of the sequences.
pub proof fn lemma_ready_batch(talk: Talk, k: int, texts: Seq<Seq<char>>, ready: BatchReady, batch: Batch)
    requires
        ready_known(talk, k, texts, ready),
        talk.count(k, Task::Round) == 0,
        batch.wf(),
        batch.offset == ready.offset,
        batch.index == 0,
        batch.pad == ready.pad,
        batch.last_hiddens == ready.last_hiddens,
        batch.trailings == ready.trailings,
        batch.lens == ready.lens,
        batch.tokens@.len() == ready.last_hiddens@.len(),
        forall|i: int|
            0 <= i < tensor_cells(batch.zero).len() ==> #[trigger] tensor_cells(batch.zero)[i] == 0,
    ensures
        batch_come(talk, k, texts, base_of(batch), batch),
        hiddens_come(talk, k, base_of(batch), batch),
{
    assert forall|i: int| 0 <= i < batch.last_hiddens@.len() && !batch.done@[i] implies is_row_hidden(
        talk,
        k,
        i,
        base_of(batch),
        #[trigger] batch.last_hiddens@[i],
    ) by {
        assert(crate::batch_talks::is_prompt_end(
            talk,
            k,
            i,
            ready.offset,
            ready.last_hiddens@[i],
        ));
    }
}

/// The next tokens start the next round.
proof fn lemma_next(talk: Talk, k: int, texts: Seq<Seq<char>>, s: BatchSynthesis, next: BatchSynthesis)
    requires
        0 <= k,
        s.wf(),
        next.wf(),
        stage_come(talk, k, texts, s),
        s.stage is Choosing,
        s.steps(talk.replies[k], BatchTurn::Ask(next, talk.asked[k + 1])),
    ensures
        stage_come(talk, k + 1, texts, next),
        next.limits == s.limits,
        next.ends == s.ends,
{
    reveal(stage_come);
    let p = s.stage->Choosing_0;
    let logits = talk.replies[k]->Tensor_0;
    let turn = BatchTurn::Ask(next, talk.asked[k + 1]);
    let (batch, rows) = choose|batch: Batch, rows: Seq<Vec<u32>>|
        {
            &&& batch == (Batch {
                tokens: batch.tokens,
                ids: batch.ids,
                last_hiddens: batch.last_hiddens,
                ..p.batch
            })
            &&& batch.tokens@.len() == p.batch.tokens@.len()
            &&& batch.last_hiddens@.len() == p.batch.last_hiddens@.len()
            &&& are_choices(grid(logits), batch.tokens@, batch.ids@)
            &&& forall|i: int|
                0 <= i < batch.last_hiddens@.len() ==> grid(#[trigger] batch.last_hiddens@[i])
                    == grid(p.hidden).narrow(0, i as usize, 1)
            &&& #[trigger] crate::codes::transferred(p.frames@, rows)
            &&& #[trigger] s.proceeds(
                batch,
                crate::batch::with_frames(
                    crate::batch::all_values(s.codes@),
                    p.active@,
                    crate::codes::values(rows),
                ),
                turn,
            )
        };
    let vals = crate::codes::values(rows);
    let before = crate::batch::all_values(s.codes@);
    let codes = crate::batch::with_frames(before, p.active@, vals);
    assert(before.len() == s.codes@.len());
    assert(codes.len() == before.len()) by {
        assert(vals.len() == rows.len());
        assert(before.len() == p.batch.done@.len());
        crate::batch::lemma_in_order(p.batch.done@, p.active@);
        crate::batch::lemma_with_frames(before, p.active@, vals);
    }
    if next.stage is Playing {
        let r = next.stage->Playing_0;
        assert(r.batch == (Batch { done: r.batch.done, ..batch }));
        assert(batch.wf());
        let base = base_of(batch);
        lemma_batch_stays(talk, k, texts, base, batch);
        lemma_ends_stay(talk, k, s.ends@, s.limits@, p.batch);
        assert(has_ends(talk, k + 1, s.ends@, s.limits@, batch));
        assert forall|i: int| 0 <= i < batch.last_hiddens@.len() && !batch.done@[i] implies is_row_hidden(
            talk,
            k + 1,
            i,
            base,
            #[trigger] batch.last_hiddens@[i],
        ) by {
            assert(grid(batch.last_hiddens@[i]) == grid(p.hidden).narrow(0, i as usize, 1));
        }
        lemma_proceeds(talk, k, texts, s, batch, logits, codes, next);
    } else {
        lemma_finishes(talk, k, texts, s, batch, codes, next);
    }
}

/// A reply leads on in a synthesis of several texts.
proof fn lemma_stage(talk: Talk, k: int, texts: Seq<Seq<char>>, s: BatchSynthesis, next: BatchSynthesis)
    requires
        0 <= k,
        stage_come(talk, k, texts, s),
        batch_leads(s, talk.replies[k], BatchTurn::Ask(next, talk.asked[k + 1])),
        next.wf(),
    ensures
        stage_come(talk, k + 1, texts, next),
        next.limits == s.limits,
        next.ends == s.ends,
{
    reveal(batch_leads);
    let reply = talk.replies[k];
    let turn = BatchTurn::Ask(next, talk.asked[k + 1]);
    if s.stage is First {
        lemma_first(talk, k, texts, s, next);
    } else if s.stage is Choosing {
        lemma_next(talk, k, texts, s, next);
    } else {
        reveal(stage_come);
        match s.stage {
            BatchStage::Prompts(p) => {
                let t = choose|t: PromptTurn| #[trigger]
                    p.steps(reply, t) && match t {
                        PromptTurn::Ask(p, ask) => turn == BatchTurn::Ask(
                            BatchSynthesis { stage: BatchStage::Prompts(p), ..s },
                            ask,
                        ),
                        PromptTurn::Built { embeds, ids } => {
                            &&& turn matches BatchTurn::Ask(next, ask)
                            &&& next == (BatchSynthesis { stage: next.stage, ..s })
                            &&& next.stage matches BatchStage::Starting(b)
                            &&& BatchStart::starts(
                                embeds@,
                                ids,
                                greatest(s.limits@),
                                false,
                                s.device,
                                (b, ask),
                            )
                        },
                    };
                lemma_prompts(talk, k, texts, p, t);
                if let PromptTurn::Built { embeds, ids } = t {
                    lemma_start_begins(
                        talk,
                        k + 1,
                        texts,
                        embeds@,
                        ids,
                        greatest(s.limits@),
                        false,
                        s.device,
                        next.stage->Starting_0,
                    );
                }
            },
            BatchStage::Starting(b) => {
                let t = choose|t: BatchStartTurn| #[trigger]
                    b.steps(reply, t) && match t {
                        BatchStartTurn::Ask(b, ask) => turn == BatchTurn::Ask(
                            BatchSynthesis { stage: BatchStage::Starting(b), ..s },
                            ask,
                        ),
                        BatchStartTurn::Ready(ready) => s.readies(ready, turn),
                    };
                lemma_start(talk, k, texts, b, t);
                if let BatchStartTurn::Ready(ready) = t {
                    let zero = next.stage->First_zero;
                    assert(tensor_cells(zero) == grid(zero).cells);
                }
            },
            BatchStage::Playing(r) => {
                let t = choose|t: RoundTurn| #[trigger]
                    r.steps(reply, t) && match t {
                        RoundTurn::Ask(r, ask) => turn == BatchTurn::Ask(
                            BatchSynthesis { stage: BatchStage::Playing(r), ..s },
                            ask,
                        ),
                        RoundTurn::Played(p) => {
                            &&& turn matches BatchTurn::Ask(next, Request::Suppress(logits))
                            &&& next == (BatchSynthesis { stage: BatchStage::Choosing(p), ..s })
                            &&& are_logits(grid(p.logits), grid(logits))
                        },
                    };
                lemma_round(talk, k, texts, base_of(r.batch), r, t);
                lemma_ends_stay(talk, k, s.ends@, s.limits@, r.batch);
                lemma_greatest_stay(talk, k, r.batch);
                if let RoundTurn::Played(p) = t {
                    assert(grid(p.logits).squeeze(1) == if tensor_dims(p.logits)[1] == 1 {
                        grid(p.logits).reshape(tensor_dims(p.logits).remove(1))
                    } else {
                        grid(p.logits)
                    });
                }
                if !(r.phase is Layers) && !(r.phase is Norm) && !(r.phase is Head) {
                    lemma_done_stays(talk, k, s.ends@, s.limits@, r.batch);
                }
            },
            _ => {},
        }
    }
}


/// The states of a run have come to what was asked and replied.
pub proof fn lemma_run(run: BatchTalk, texts: Seq<Seq<char>>, k: int)
    requires
        run.wf(),
        stage_come(run.talk, 0, texts, run.states[0]),
        0 <= k < run.talk.asked.len(),
    ensures
        run.states[k].wf(),
        stage_come(run.talk, k, texts, run.states[k]),
        run.states[k].limits == run.states[0].limits,
        run.states[k].ends == run.states[0].ends,
    decreases k,
{
    assert(run.states[k].wf()) by {
        if k < run.talk.replies.len() {
            assert(batch_leads(
                run.states[k],
                run.talk.replies[k],
                BatchTurn::Ask(run.states[k + 1], run.talk.asked[k + 1]),
            ));
            reveal(batch_leads);
        }
    }
    if k > 0 {
        lemma_run(run, texts, k - 1);
        assert(batch_leads(
            run.states[k - 1],
            run.talk.replies[k - 1],
            BatchTurn::Ask(run.states[k - 1 + 1], run.talk.asked[k - 1 + 1]),
        ));
        lemma_stage(run.talk, k - 1, texts, run.states[k - 1], run.states[k]);
    }
}

/// The texts of requests.
pub open spec fn texts_of(requests: Seq<BatchRequest>) -> Seq<Seq<char>> {
    Seq::new(requests.len(), |i: int| requests[i].0@)
}

/// That at place `k` the talker is given the round that follows for these requests: each
/// sequence that has not ended its own text, and a sequence has ended where its own end
/// was chosen or it has as many frames as it may have.
pub open spec fn is_round_of(talk: Talk, k: int, requests: Seq<BatchRequest>, base: usize, done: Seq<bool>) -> bool {
    let n = going_on(done, done.len() as int) as int;
    let f = talk.count(k, Task::Round);
    &&& is_prompt_len(talk, k, base)
    &&& is_round(talk, k, texts_of(requests), base, done)
    &&& forall|i: int|
        0 <= i < requests.len() ==> {
            let end = options_or_default(requests[i].2).eos_token_id;
            if #[trigger] done[i] {
                f >= batch_limits(requests)[i] || exists|j: int|
                    0 <= j < k && #[trigger] is_end_at(talk, j, i, end)
            } else {
                &&& f < batch_limits(requests)[i]
                &&& talk.asked[k - 2 * n - 1 + going_on(done, i)] matches Request::EmbedToken(token)
                &&& end matches Some(id) ==> tensor_cells(token)[0] != id
                &&& talk.latest(k, Task::Suppress) >= 0
                &&& talk.replies[talk.latest(k, Task::Suppress)] matches Reply::Tensor(logits)
                &&& is_greatest(logits, i, tensor_cells(token)[0])
            }
        }
}

/// The start of a batch.
pub proof fn lemma_starts(
    model: Qwen3TTS,
    requests: Seq<BatchRequest>,
    prompts: Seq<Option<&VoiceClonePrompt>>,
    run: BatchTalk,
)
    requires
        requests.len() > 1,
        model.starts_batch(requests, prompts, BatchTurn::Ask(run.states[0], run.talk.asked[0])),
    ensures
        stage_come(run.talk, 0, texts_of(requests), run.states[0]),
        run.states[0].limits@ == batch_limits(requests),
        run.states[0].ends@ == batch_ends(requests),
{
    reveal(stage_come);
    let b = run.states[0];
    assert(crate::batch::all_values(b.codes@).len() == b.codes@.len());
    let p = b.stage->Prompts_0;
    assert(p.ids@.len() == 0);
}

/// What is known where the talker is given a round.
proof fn lemma_place(talk: Talk, k: int, requests: Seq<BatchRequest>, s: BatchSynthesis)
    requires
        s.wf(),
        stage_come(talk, k, texts_of(requests), s),
        s.limits@ == batch_limits(requests),
        s.ends@ == batch_ends(requests),
    ensures
        talk.asked[k] matches Request::Forward { mask, .. } ==> mask is None ==> (
        s.stage matches BatchStage::Playing(r) && is_round_of(
            talk,
            k,
            requests,
            base_of(r.batch),
            r.batch.done@,
        )),
        talk.asked[k] is BatchAcoustic ==> (s.stage matches BatchStage::Playing(r)
            && is_prompt_len(talk, k, base_of(r.batch)) && r.batch.done@.len() == requests.len()
            && is_predicted(talk, k, base_of(r.batch), r.batch.done@)),
{
    reveal(stage_come);
    if let BatchStage::Playing(r) = s.stage {
        if r.phase is Layers {
            let done = r.batch.done@;
            let n = going_on(done, done.len() as int) as int;
            let logits = choose|logits: Tensor| #[trigger]
                talk.told(k, Task::Suppress, logits) && forall|i: int|
                    0 <= i < r.batch.tokens@.len() ==> is_greatest(
                        logits,
                        i,
                        tensor_cells(#[trigger] r.batch.tokens@[i])[0],
                    );
            assert forall|i: int| 0 <= i < requests.len() implies ({
                let end = options_or_default(requests[i].2).eos_token_id;
                if #[trigger] done[i] {
                    talk.count(k, Task::Round) >= batch_limits(requests)[i] || exists|j: int|
                        0 <= j < k && #[trigger] is_end_at(talk, j, i, end)
                } else {
                    &&& talk.count(k, Task::Round) < batch_limits(requests)[i]
                    &&& talk.asked[k - 2 * n - 1 + going_on(done, i)] matches Request::EmbedToken(
                        token,
                    )
                    &&& end matches Some(id) ==> tensor_cells(token)[0] != id
                    &&& talk.latest(k, Task::Suppress) >= 0
                    &&& talk.replies[talk.latest(k, Task::Suppress)] matches Reply::Tensor(logits)
                    &&& is_greatest(logits, i, tensor_cells(token)[0])
                }
            }) by {
                assert(s.ends@[i] == options_or_default(requests[i].2).eos_token_id);
                assert(is_done(
                    talk,
                    k,
                    i,
                    s.ends@[i],
                    s.limits@[i],
                    r.batch.tokens@[i],
                    r.batch.done@[i],
                ));
                assert(is_greatest(logits, i, tensor_cells(r.batch.tokens@[i])[0]));
            }
        }
    }
}

/// The tokens of a round were embedded before its acoustic codes are asked for.
pub proof fn lemma_tokens(run: BatchTalk, k: int, texts: Seq<Seq<char>>, r: Round, i: int)
    requires
        run.states[k].wf(),
        stage_come(run.talk, k, texts, run.states[k]),
        run.states[k].stage == BatchStage::Playing(r),
        r.phase is Predicting,
        0 <= i < r.batch.done@.len(),
        !r.batch.done@[i],
    ensures
        ({
            let n = going_on(r.batch.done@, r.batch.done@.len() as int);
            run.talk.asked[k - n + going_on(r.batch.done@, i)] == Request::EmbedToken(
                r.batch.tokens@[i],
            )
        }),
{
    reveal(stage_come);
    lemma_going_on(r.batch.done@);
    let p = going_on(r.batch.done@, i) as int;
    let embeds = r.phase->Predicting_embeds;
    assert(indices(r.active@).len() == r.active@.len());
    assert(indices(r.active@)[p] == r.active@[p]);
    assert(is_embedded(
        run.talk,
        k - r.active@.len() + p,
        r.batch.tokens@[r.active@[p] as int],
        embeds@[p],
    ));
}

/// That a sequence has ended in the round whose acoustic codes are predicted at place `k`
/// where its own end was chosen or it has as many frames as it may have, and not before.
pub open spec fn are_ended(talk: Talk, k: int, requests: Seq<BatchRequest>, done: Seq<bool>) -> bool {
    let n = going_on(done, done.len() as int) as int;
    let f = talk.count(k, Task::Round);
    &&& done.len() == requests.len()
    &&& forall|i: int|
        0 <= i < requests.len() ==> {
            let end = options_or_default(requests[i].2).eos_token_id;
            if #[trigger] done[i] {
                f >= batch_limits(requests)[i] || exists|j: int|
                    0 <= j < k && #[trigger] is_end_at(talk, j, i, end)
            } else {
                &&& f < batch_limits(requests)[i]
                &&& talk.asked[k - n + going_on(done, i)] matches Request::EmbedToken(token)
                &&& end matches Some(id) ==> tensor_cells(token)[0] != id
            }
        }
}

/// The sequences have ended where they have to when acoustic codes are asked for.
proof fn lemma_ended(run: BatchTalk, k: int, requests: Seq<BatchRequest>)
    requires
        run.states[k].wf(),
        stage_come(run.talk, k, texts_of(requests), run.states[k]),
        run.states[k].limits@ == batch_limits(requests),
        run.states[k].ends@ == batch_ends(requests),
        run.talk.asked[k] is BatchAcoustic,
    ensures
        are_ended(run.talk, k, requests, done_at(run, k)),
{
    reveal(stage_come);
    let s = run.states[k];
    let talk = run.talk;
    let r = s.stage->Playing_0;
    let done = r.batch.done@;
    let n = going_on(done, done.len() as int) as int;
    assert forall|i: int| 0 <= i < requests.len() implies ({
        let end = options_or_default(requests[i].2).eos_token_id;
        if #[trigger] done[i] {
            talk.count(k, Task::Round) >= batch_limits(requests)[i] || exists|j: int|
                0 <= j < k && #[trigger] is_end_at(talk, j, i, end)
        } else {
            &&& talk.count(k, Task::Round) < batch_limits(requests)[i]
            &&& talk.asked[k - n + going_on(done, i)] matches Request::EmbedToken(token)
            &&& end matches Some(id) ==> tensor_cells(token)[0] != id
        }
    }) by {
        assert(s.ends@[i] == options_or_default(requests[i].2).eos_token_id);
        assert(is_done(talk, k, i, s.ends@[i], s.limits@[i], r.batch.tokens@[i], r.batch.done@[i]));
        if !done[i] {
            lemma_tokens(run, k, texts_of(requests), r, i);
        }
    }
}

/// Each text of a batch is spoken by its own sequence: in every round, the row of a
/// sequence that has not ended is the sum of the embedding of its token, that of its
/// acoustic codes, and the position of the text of its own request that goes with the
/// frame, or what stands for no text behind the end of that text. The other requests
/// have no part in it. The row of a sequence that has ended is zero.
pub proof fn law_batch_rounds(
    model: Qwen3TTS,
    requests: Seq<BatchRequest>,
    prompts: Seq<Option<&VoiceClonePrompt>>,
    run: BatchTalk,
    k: int,
)
    requires
        requests.len() > 1,
        run.wf(),
        model.starts_batch(requests, prompts, BatchTurn::Ask(run.states[0], run.talk.asked[0])),
        0 <= k < run.talk.asked.len(),
        run.talk.asked[k] matches Request::Forward { mask, .. } && mask is None,
    ensures
        exists|base: usize| #[trigger]
            is_round_of(run.talk, k, requests, base, done_at(run, k)),
{
    lemma_starts(model, requests, prompts, run);
    lemma_run(run, texts_of(requests), k);
    lemma_place(run.talk, k, requests, run.states[k]);
    let r = run.states[k].stage->Playing_0;
    assert(done_at(run, k) == r.batch.done@);
    assert(is_round_of(run.talk, k, requests, base_of(r.batch), done_at(run, k)));
}

/// The acoustic codes of each sequence of a batch are predicted from what the talker gave
/// last for that sequence, and from the embedding of its own token. A sequence takes part
/// until its own end is chosen or it has as many frames as it may have.
pub proof fn law_batch_hiddens(
    model: Qwen3TTS,
    requests: Seq<BatchRequest>,
    prompts: Seq<Option<&VoiceClonePrompt>>,
    run: BatchTalk,
    k: int,
)
    requires
        requests.len() > 1,
        run.wf(),
        model.starts_batch(requests, prompts, BatchTurn::Ask(run.states[0], run.talk.asked[0])),
        0 <= k < run.talk.asked.len(),
        run.talk.asked[k] is BatchAcoustic,
    ensures
        are_ended(run.talk, k, requests, done_at(run, k)),
        exists|base: usize|
            is_prompt_len(run.talk, k, base) && #[trigger] is_predicted(
                run.talk,
                k,
                base,
                done_at(run, k),
            ),
{
    lemma_starts(model, requests, prompts, run);
    lemma_run(run, texts_of(requests), k);
    lemma_ended(run, k, requests);
    lemma_place(run.talk, k, requests, run.states[k]);
}

} // verus!
