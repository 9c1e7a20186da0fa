//! Synthesis of several texts side by side that yields audio chunk by chunk.
use crate::audio::AudioBuffer;
use crate::batch::{
    all_values, allows, append_frames, at_most, lemma_in_order, lemma_one_more, lemma_stay_within,
    lemma_with_frames, with_frames, within,
};
use crate::batch_prompt::{BatchPrefill, PromptTurn};
use crate::batch_start::{starts_on_cpu, BatchReady, BatchStart, BatchStartTurn};
use crate::batch_synth::zero_input;
use crate::chunks::{is_cut, lemma_buffer, lemma_full, lemma_nothing_cut, lemma_take};
use crate::codes::{codes_grid, fit_codebooks, frames_to_tensor, values, FrameCodes};
use crate::error::TtsError;
use crate::generator::{empty_mask, is_mask, new_mask, takes_logits};
use crate::grid::{cells_of, countable, DType, Location};
use crate::ops::{is_countable, numbers, part};
use crate::options::{greatest, greatest_of, lemma_greatest, GenerationConfig, SAMPLE_RATE};
use crate::request::{Reply, Request};
use crate::round::{
    active_of, actives, ended, indices, lemma_actives, mark_ended, Batch, Played, Round, RoundTurn,
};
use crate::sampler::{TokenStep, TokenTurn};
use crate::tensor::{
    copy, device_location, grid, tensor_cells, tensor_dims, tensor_dtype, zeros,
};
use candle_core::{Device, Tensor};
use vstd::prelude::*;

verus! {

/// Whether frames can be decoded on this device in any case.
pub open spec fn decodable(frames: Seq<Seq<u32>>, location: Location) -> bool {
    &&& location is Cpu
    &&& fit_codebooks(frames)
    &&& frames.len() * 256 <= usize::MAX
}

/// That the first sequence with frames from `from` on is `lane`, or that there is
/// none where `lane` is beyond the last sequence.
pub open spec fn is_next_lane(codes: Seq<Seq<Seq<u32>>>, from: int, lane: int) -> bool {
    &&& from <= lane <= codes.len()
    &&& forall|i: int| from <= i < lane ==> (#[trigger] codes[i]).len() == 0
    &&& lane < codes.len() ==> codes[lane].len() > 0
}

/// The first sequence with frames.
fn next_full(buffers: &Vec<FrameCodes>, from: usize) -> (r: usize)
    requires
        from <= buffers@.len(),
    ensures
        is_next_lane(all_values(buffers@), from as int, r as int),
{
    let ghost codes = all_values(buffers@);
    let mut i = from;
    while i < buffers.len()
        invariant
            from <= i <= buffers@.len(),
            codes == all_values(buffers@),
            forall|j: int| from <= j < i ==> (#[trigger] codes[j]).len() == 0,
        decreases buffers@.len() - i,
    {
        proof {
            assert(codes[i as int] == values(buffers@[i as int]@));
            assert(values(buffers@[i as int]@).len() == buffers@[i as int]@.len());
        }
        if buffers[i].len() > 0 {
            return i;
        }
        i = i + 1;
    }
    i
}

/// That these are the codes of each frame.
pub open spec fn are_codes(frames: Seq<Tensor>, rows: Seq<Vec<u32>>) -> bool {
    &&& rows.len() == frames.len()
    &&& forall|k: int|
        0 <= k < frames.len() ==> cells_of((#[trigger] rows[k])@) == tensor_cells(frames[k])
}

/// The codes of each frame.
fn read_frames(frames: &Vec<Tensor>) -> (r: Result<FrameCodes, TtsError>)
    ensures
        r matches Ok(rows) ==> are_codes(frames@, rows@),
        r matches Err(e) ==> e.is_computing(),
        (forall|k: int|
            0 <= k < frames@.len() ==> grid(#[trigger] frames@[k]).at_hand() && tensor_dtype(
                frames@[k],
            ) == DType::U32) ==> r is Ok,
{
    let mut rows: FrameCodes = Vec::new();
    let mut k: usize = 0;
    while k < frames.len()
        invariant
            k <= frames@.len(),
            rows@.len() == k,
            forall|j: int|
                0 <= j < k ==> cells_of((#[trigger] rows@[j])@) == tensor_cells(frames@[j]),
        decreases frames@.len() - k,
    {
        match numbers(&frames[k]) {
            Ok(v) => {
                rows.push(v);
            },
            Err(e) => {
                return Err(e);
            },
        }
        k = k + 1;
    }
    Ok(rows)
}

/// How many frames each sequence may have.
pub open spec fn limits_of(configs: Seq<GenerationConfig>) -> Seq<usize> {
    configs.map_values(|c: GenerationConfig| c.max_new_tokens)
}

/// The token that ends each sequence, if one does.
pub open spec fn ends_of(configs: Seq<GenerationConfig>) -> Seq<Option<u32>> {
    configs.map_values(|c: GenerationConfig| c.eos_token_id)
}

/// How many frames each sequence may have.
fn limits_for(configs: &Vec<GenerationConfig>) -> (r: Vec<usize>)
    ensures
        r@ == limits_of(configs@),
{
    let mut out: Vec<usize> = Vec::new();
    let mut i: usize = 0;
    while i < configs.len()
        invariant
            i <= configs@.len(),
            out@ == limits_of(configs@).take(i as int),
        decreases configs@.len() - i,
    {
        out.push(configs[i].max_new_tokens);
        assert(out@ =~= limits_of(configs@).take(i + 1));
        i = i + 1;
    }
    assert(limits_of(configs@).take(i as int) =~= limits_of(configs@));
    out
}

/// The token that ends each sequence, if one does.
fn ends_for(configs: &Vec<GenerationConfig>) -> (r: Vec<Option<u32>>)
    ensures
        r@ == ends_of(configs@),
{
    let mut out: Vec<Option<u32>> = Vec::new();
    let mut i: usize = 0;
    while i < configs.len()
        invariant
            i <= configs@.len(),
            out@ == ends_of(configs@).take(i as int),
        decreases configs@.len() - i,
    {
        out.push(configs[i].eos_token_id);
        assert(out@ =~= ends_of(configs@).take(i + 1));
        i = i + 1;
    }
    assert(ends_of(configs@).take(i as int) =~= ends_of(configs@));
    out
}

/// How far the synthesis has come.
pub enum StreamStage {
    /// The prompts.
    Prompts(BatchPrefill),
    /// The talker on the prompts.
    Starting(BatchStart),
    /// The first token of each sequence.
    First { ready: BatchReady, zero: Tensor, tokens: Vec<Tensor>, ids: Vec<u32>, step: TokenStep },
    /// A frame of each sequence.
    Playing(Round),
    /// The next token of each sequence that has not ended.
    Next { played: Played, k: usize, step: TokenStep },
    /// The waveform of a chunk of this sequence. At the end there is no batch.
    Decoding { batch: Option<Batch>, lane: usize },
    /// The audio of a chunk.
    Reading { batch: Option<Batch>, lane: usize },
    /// The word to go on behind a chunk of this sequence.
    Sent { batch: Option<Batch>, lane: usize },
}

/// Synthesis of several texts that yields chunks.
pub struct BatchStreaming {
    /// What the generation of each sequence goes by.
    pub configs: Vec<GenerationConfig>,
    /// How many frames each sequence may have.
    pub limits: Vec<usize>,
    pub compute_dtype: DType,
    pub device: Device,
    pub chunk_frames: usize,
    /// The frames of each sequence that are not decoded yet.
    pub buffers: Vec<FrameCodes>,
    /// The tokens of each sequence, marked.
    pub masks: Vec<Tensor>,
    /// All frames of each sequence, in the order in which they were generated.
    pub made: Ghost<Seq<Seq<Seq<u32>>>>,
    /// The chunks of each sequence that were handed to the decoder or passed over.
    pub chunks: Ghost<Seq<Seq<Seq<Seq<u32>>>>>,
    pub stage: StreamStage,
}

/// What is wanted next.
pub enum StreamTurn {
    /// A reply of the model.
    Ask(BatchStreaming, Request),
    /// That a chunk of this sequence is sent.
    Chunk { sequence: usize, audio: AudioBuffer, rest: BatchStreaming },
    /// The word to go on: the frames of this sequence could not be decoded.
    Passed { sequence: usize, error: TtsError, rest: BatchStreaming },
    /// Nothing: all chunks are sent.
    End,
}

impl StreamTurn {
    /// Whether what is left to do is in order.
    pub open spec fn wf(self) -> bool {
        match self {
            StreamTurn::Ask(next, _) => next.wf(),
            StreamTurn::Chunk { rest, .. } => rest.wf() && rest.stage is Sent,
            StreamTurn::Passed { rest, .. } => rest.wf() && rest.stage is Sent,
            StreamTurn::End => true,
        }
    }
}

/// That `q` is `p` with what the talker gave for the last position of each
/// sequence that has not ended.
pub open spec fn has_hiddens(p: Played, q: Played) -> bool {
    &&& q == (Played { batch: Batch { last_hiddens: q.batch.last_hiddens, ..p.batch }, ..p })
    &&& q.batch.last_hiddens@.len() == p.batch.last_hiddens@.len()
    &&& forall|k: int|
        0 <= k < p.active@.len() ==> grid(
            q.batch.last_hiddens@[(#[trigger] p.active@[k]) as int],
        ) == grid(p.hidden).narrow(0, p.active@[k], 1)
    &&& forall|i: int|
        0 <= i < p.batch.last_hiddens@.len() && p.batch.done@[i]
            ==> #[trigger] q.batch.last_hiddens@[i] == p.batch.last_hiddens@[i]
}

/// Take up what the talker gave for the last position of each sequence that has
/// not ended.
fn take_hiddens(p: Played) -> (r: Result<Played, TtsError>)
    requires
        p.batch.wf(),
        indices(p.active@) == actives(p.batch.done@),
    ensures
        r matches Ok(q) ==> has_hiddens(p, q) && q.batch.wf(),
        r matches Err(e) ==> e.is_computing(),
        tensor_dims(p.hidden).len() > 0 && tensor_dims(p.hidden)[0]
            >= p.batch.tokens@.len() ==> r is Ok,
{
    let n = p.batch.tokens.len();
    let mut last = p.batch.last_hiddens;
    proof {
        lemma_actives(p.batch.done@);
        assert forall|k: int| 0 <= k < p.active@.len() implies #[trigger] p.active@[k] < n
            && !p.batch.done@[p.active@[k] as int] by {
            assert(indices(p.active@)[k] == p.active@[k]);
        }
        assert forall|j: int, k: int| 0 <= j < k < p.active@.len() implies #[trigger] p.active@[j]
            < #[trigger] p.active@[k] by {
            assert(indices(p.active@)[j] == p.active@[j]);
            assert(indices(p.active@)[k] == p.active@[k]);
        }
    }
    let mut k: usize = 0;
    while k < p.active.len()
        invariant
            k <= p.active@.len(),
            last@.len() == n,
            n == p.batch.tokens@.len(),
            p.batch.wf(),
            forall|j: int|
                0 <= j < p.active@.len() ==> #[trigger] p.active@[j] < n
                    && !p.batch.done@[p.active@[j] as int],
            forall|j: int, l: int|
                0 <= j < l < p.active@.len() ==> #[trigger] p.active@[j] < #[trigger] p.active@[l],
            forall|j: int|
                0 <= j < k ==> grid(last@[(#[trigger] p.active@[j]) as int]) == grid(
                    p.hidden,
                ).narrow(0, p.active@[j], 1),
            forall|i: int|
                0 <= i < n && p.batch.done@[i] ==> #[trigger] last@[i]
                    == p.batch.last_hiddens@[i],
        decreases p.active@.len() - k,
    {
        let a = p.active[k];
        let ghost before = last@;
        match part(&p.hidden, 0, a, 1) {
            Ok(t) => {
                last.set(a, t);
            },
            Err(e) => {
                return Err(e);
            },
        }
        proof {
            assert forall|j: int| 0 <= j < k + 1 implies grid(
                last@[(#[trigger] p.active@[j]) as int],
            ) == grid(p.hidden).narrow(0, p.active@[j], 1) by {
                if j < k {
                    assert(p.active@[j] < p.active@[k as int]);
                    assert(last@[p.active@[j] as int] == before[p.active@[j] as int]);
                }
            }
        }
        k = k + 1;
    }
    Ok(Played { batch: Batch { last_hiddens: last, ..p.batch }, ..p })
}

impl BatchStreaming {
    /// There is a buffer and a mask for each sequence, and what a stage promises.
    pub open spec fn wf(self) -> bool {
        &&& self.is_idle()
        &&& match self.stage {
            StreamStage::Prompts(p) => {
                &&& p.wf()
                &&& p.items@.len() == self.count()
                &&& self.is_fresh()
            },
            StreamStage::Starting(b) => {
                &&& b.wf()
                &&& b.ids@.len() == self.count()
                &&& self.is_fresh()
            },
            StreamStage::First { ready, tokens, ids, step, .. } => {
                &&& self.is_fresh()
                &&& self.fits_ready(ready)
                &&& are_tokens(tokens@, ids@)
                &&& tokens@.len() < self.count()
                &&& step.wf()
                &&& step.sequence == tokens@.len()
            },
            StreamStage::Playing(r) => {
                &&& r.wf()
                &&& self.fits_batch(r.batch)
                &&& r.batch.index < greatest(self.limits@)
                &&& allows(self.limits@, r.batch.done@, r.batch.index + 1)
                &&& self.buffers_at_most(r.batch.index as int % self.chunk_frames as int)
            },
            StreamStage::Next { played, k, step } => {
                &&& self.fits_played(played)
                &&& self.since_chunk(played)
                &&& k < played.active@.len()
                &&& step.wf()
                &&& step.sequence == played.active@[k as int]
            },
            StreamStage::Decoding { batch, lane } => self.fits_lane(batch, lane),
            StreamStage::Reading { batch, lane } => self.fits_lane(batch, lane),
            StreamStage::Sent { batch, lane } => self.fits_lane(batch, lane),
        }
    }

    /// Whether no more than so many frames of a sequence are buffered.
    pub open spec fn buffers_at_most(self, n: int) -> bool {
        at_most(all_values(self.buffers@), n)
    }

    /// Whether there are no frames yet.
    pub open spec fn is_fresh(self) -> bool {
        &&& self.buffers_at_most(0)
        &&& at_most(self.made@, 0)
        &&& self.chunks@.len() == self.count()
        &&& forall|i: int| 0 <= i < self.count() ==> (#[trigger] self.chunks@[i]).len() == 0
    }

    /// Whether the frames of each sequence are its chunks and what is buffered.
    pub open spec fn tracks(self, done: Seq<bool>) -> bool {
        &&& self.made@.len() == self.count()
        &&& self.chunks@.len() == self.count()
        &&& done.len() == self.count()
        &&& forall|i: int|
            0 <= i < self.count() ==> is_cut(
                #[trigger] self.made@[i],
                all_values(self.buffers@)[i],
                self.chunks@[i],
                self.chunk_frames as int,
                done[i],
            )
    }

    /// Whether each sequence that has not ended has so many frames.
    pub open spec fn in_step(self, done: Seq<bool>, frames: int) -> bool {
        forall|i: int|
            0 <= i < self.count() && !done[i] ==> (#[trigger] self.made@[i]).len() == frames
    }

    /// Every sequence counts as ended.
    pub open spec fn all_over(self) -> Seq<bool> {
        Seq::new(self.count(), |i: int| true)
    }

    /// Which sequences count as ended: all of them at the end.
    pub open spec fn over_with(self, batch: Option<Batch>) -> Seq<bool> {
        match batch {
            Some(b) => b.done@,
            None => self.all_over(),
        }
    }

    /// Whether the sequences before `from` have nothing buffered.
    pub open spec fn is_empty_before(self, from: int) -> bool {
        forall|i: int| 0 <= i < from ==> (#[trigger] self.buffers@[i])@.len() == 0
    }

    /// The number of sequences.
    pub open spec fn count(self) -> nat {
        self.buffers@.len()
    }

    /// What holds at every stage.
    pub open spec fn is_idle(self) -> bool {
        &&& self.count() > 0
        &&& self.masks@.len() == self.count()
        &&& forall|i: int| 0 <= i < self.masks@.len() ==> is_mask(grid(#[trigger] self.masks@[i]))
        &&& self.chunk_frames > 0
        &&& self.buffers_at_most(self.chunk_frames as int)
        &&& self.compute_dtype != DType::Other
        &&& self.configs@.len() == self.count()
        &&& self.limits@ == limits_of(self.configs@)
        &&& within(self.made@, self.limits@)
    }

    /// Whether there is a prompt for each sequence.
    pub open spec fn fits_ready(self, ready: BatchReady) -> bool {
        &&& ready.last_hiddens@.len() == self.count()
        &&& ready.logits@.len() == self.count()
        &&& ready.trailings@.len() == self.count()
        &&& ready.lens@.len() == self.count()
    }

    /// Whether the batch has the sequences.
    pub open spec fn has_sequences(self, batch: Batch) -> bool {
        &&& batch.wf()
        &&& batch.tokens@.len() == self.count()
        &&& batch.ends@ == ends_of(self.configs@)
    }

    /// Whether the batch has the sequences, and their frames.
    pub open spec fn fits_batch(self, batch: Batch) -> bool {
        &&& self.has_sequences(batch)
        &&& at_most(self.made@, batch.index as int)
        &&& self.tracks(batch.done@)
        &&& self.in_step(batch.done@, batch.index as int)
    }

    /// Whether frames of the sequences that have not ended were made.
    pub open spec fn fits_played(self, p: Played) -> bool {
        &&& self.fits_batch(p.batch)
        &&& indices(p.active@) == actives(p.batch.done@)
        &&& p.batch.index > 0
    }

    /// Whether no more frames are buffered than were made since the last chunk.
    pub open spec fn since_chunk(self, p: Played) -> bool {
        self.buffers_at_most((p.batch.index - 1) % self.chunk_frames as int + 1)
    }

    /// Whether the sequences before `from` have nothing buffered, and a chunk is
    /// due.
    pub open spec fn fits_chunk(self, batch: Batch, from: int) -> bool {
        &&& self.fits_batch(batch)
        &&& batch.index as int % self.chunk_frames as int == 0
        &&& self.is_empty_before(from)
    }

    /// Whether the sequence is one.
    pub open spec fn fits_lane(self, batch: Option<Batch>, lane: usize) -> bool {
        &&& lane < self.count()
        &&& match batch {
            Some(b) => self.fits_chunk(b, lane + 1),
            None => self.tracks(self.all_over()) && self.is_empty_before(lane + 1),
        }
    }

    /// The synthesis between two stages.
    pub open spec fn idle(self) -> BatchStreaming {
        BatchStreaming { stage: StreamStage::Sent { batch: None, lane: 0 }, ..self }
    }

    /// Whether this is a reply to what was asked.
    pub open spec fn awaits(self, reply: Reply) -> bool {
        match self.stage {
            StreamStage::Prompts(p) => p.awaits(reply),
            StreamStage::Starting(b) => b.awaits(reply),
            StreamStage::First { .. } => reply is Tensor,
            StreamStage::Playing(r) => r.awaits(reply),
            StreamStage::Next { .. } => reply is Tensor,
            StreamStage::Decoding { .. } => reply is Tensor || reply is Failed,
            StreamStage::Reading { .. } => reply is Audio || reply is Failed,
            StreamStage::Sent { .. } => false,
        }
    }

    /// That `next` has the frames of this sequence no longer buffered.
    pub open spec fn takes_lane(self, lane: int, next: BatchStreaming) -> bool {
        &&& next == (BatchStreaming {
            buffers: next.buffers,
            chunks: next.chunks,
            stage: next.stage,
            ..self
        })
        &&& all_values(next.buffers@) == all_values(self.buffers@).update(
            lane,
            Seq::<Seq<u32>>::empty(),
        )
        &&& next.chunks@ == self.chunks@.update(
            lane,
            self.chunks@[lane].push(all_values(self.buffers@)[lane]),
        )
    }

    /// That the frames of this sequence are decoded next, or passed over where they
    /// cannot be.
    pub open spec fn decodes(self, batch: Option<Batch>, lane: int, turn: StreamTurn) -> bool {
        let frames = all_values(self.buffers@)[lane];
        match turn {
            StreamTurn::Ask(next, Request::Decode(t)) => {
                &&& self.takes_lane(lane, next)
                &&& fit_codebooks(frames)
                &&& grid(t) == codes_grid(frames, device_location(self.device))
                &&& next.stage matches StreamStage::Decoding { batch: b, lane: l }
                &&& b == batch
                &&& l == lane
            },
            StreamTurn::Passed { sequence, error, rest } => {
                &&& !decodable(frames, device_location(self.device))
                &&& sequence == lane
                &&& error is BadFrame <==> !fit_codebooks(frames)
                &&& self.takes_lane(lane, rest)
                &&& rest.stage matches StreamStage::Sent { batch: b, lane: l }
                &&& b == batch
                &&& l == lane
            },
            _ => false,
        }
    }

    /// That at the end what is buffered is decoded, from one sequence on.
    pub open spec fn flushes(self, from: int, turn: StreamTurn) -> bool {
        exists|lane: int|
            {
                &&& #[trigger] is_next_lane(all_values(self.buffers@), from, lane)
                &&& if lane < self.count() {
                    self.decodes(None, lane, turn)
                } else {
                    turn == StreamTurn::End
                }
            }
    }

    /// What the next tokens lead to: a frame of each sequence that has not ended,
    /// or the end.
    pub open spec fn proceeds(self, batch: Batch, turn: StreamTurn) -> bool {
        let done = ended(
            batch.done@,
            batch.ids@,
            batch.ends@,
            batch.index,
            self.limits@,
        );
        if actives(done).len() > 0 {
            &&& turn matches StreamTurn::Ask(next, ask)
            &&& next == (BatchStreaming { stage: next.stage, ..self })
            &&& next.stage matches StreamStage::Playing(round)
            &&& round.batch == (Batch { done: round.batch.done, ..batch })
            &&& round.batch.done@ == done
            &&& Round::starts(round.batch, (round, ask))
        } else {
            self.flushes(0, turn)
        }
    }

    /// That a chunk of each sequence is decoded, from one sequence on, and then the
    /// sequences go on.
    pub open spec fn chunks(self, batch: Batch, from: int, turn: StreamTurn) -> bool {
        exists|lane: int|
            {
                &&& #[trigger] is_next_lane(all_values(self.buffers@), from, lane)
                &&& if lane < self.count() {
                    self.decodes(Some(batch), lane, turn)
                } else {
                    self.proceeds(batch, turn)
                }
            }
    }

    /// That the first token of the next sequence is sampled, and behind the last
    /// one the sequences start.
    pub open spec fn samples_first(
        self,
        ready: BatchReady,
        zero: Tensor,
        tokens: Seq<Tensor>,
        ids: Seq<u32>,
        turn: StreamTurn,
    ) -> bool {
        let i = tokens.len() as int;
        if i < self.count() {
            &&& turn matches StreamTurn::Ask(next, ask)
            &&& next == (BatchStreaming { stage: next.stage, ..self })
            &&& next.stage matches StreamStage::First {
                ready: r,
                zero: z,
                tokens: ts,
                ids: js,
                step,
            }
            &&& r == ready
            &&& z == zero
            &&& ts@ == tokens
            &&& js@ == ids
            &&& TokenStep::starts(
                self.configs@[i],
                i as usize,
                0,
                self.masks@[i],
                ready.logits@[i],
                (step, ask),
            )
        } else {
            exists|batch: Batch|
                {
                    &&& batch.ends@ == ends_of(self.configs@)
                    &&& batch.offset == ready.offset
                    &&& batch.index == 0
                    &&& batch.pad == ready.pad
                    &&& batch.zero == zero
                    &&& batch.tokens@ == tokens
                    &&& batch.ids@ == ids
                    &&& batch.done@ == Seq::new(self.count(), |i: int| false)
                    &&& batch.last_hiddens == ready.last_hiddens
                    &&& batch.trailings == ready.trailings
                    &&& batch.lens == ready.lens
                    &&& #[trigger] self.proceeds(batch, turn)
                }
        }
    }

    /// That the next token of a sequence is sampled, and behind the last one
    /// chunks are decoded, where one is due.
    pub open spec fn samples_next(self, played: Played, k: int, turn: StreamTurn) -> bool {
        if k < played.active@.len() {
            let a = played.active@[k];
            &&& turn matches StreamTurn::Ask(next, ask)
            &&& next == (BatchStreaming { stage: next.stage, ..self })
            &&& next.stage matches StreamStage::Next { played: p, k: j, step }
            &&& p == played
            &&& j == k
            &&& exists|row: Tensor|
                {
                    &&& grid(row) == grid(played.logits).narrow(0, a, 1)
                    &&& #[trigger] TokenStep::starts(
                        self.configs@[a as int],
                        a,
                        played.batch.index,
                        self.masks@[a as int],
                        row,
                        (step, ask),
                    )
                }
        } else if played.batch.index % self.chunk_frames == 0 {
            self.chunks(played.batch, 0, turn)
        } else {
            self.proceeds(played.batch, turn)
        }
    }

    /// What the frames of a round lead to: they are buffered, and the next tokens
    /// are sampled.
    pub open spec fn plays(self, p: Played, turn: StreamTurn) -> bool {
        exists|rows: Seq<Vec<u32>>, q: Played, rest: BatchStreaming|
            {
                &&& #[trigger] are_codes(p.frames@, rows)
                &&& has_hiddens(p, q)
                &&& rest == (BatchStreaming { buffers: rest.buffers, made: rest.made, ..self })
                &&& all_values(rest.buffers@) == with_frames(
                    all_values(self.buffers@),
                    p.active@,
                    values(rows),
                )
                &&& rest.made@ == with_frames(self.made@, p.active@, values(rows))
                &&& #[trigger] rest.samples_next(q, 0, turn)
            }
    }

    /// What the end of a chunk of a sequence leads to.
    pub open spec fn goes_on(self, batch: Option<Batch>, lane: usize, turn: StreamTurn) -> bool {
        match batch {
            Some(b) => self.chunks(b, lane + 1, turn),
            None => self.flushes(lane + 1, turn),
        }
    }
}

impl BatchStreaming {
    /// What a token that was sampled first leads to.
    pub open spec fn takes_first(
        self,
        ready: BatchReady,
        zero: Tensor,
        tokens: Vec<Tensor>,
        ids: Vec<u32>,
        t: TokenTurn,
        turn: StreamTurn,
    ) -> bool {
        match t {
            TokenTurn::Ask(step, ask) => turn == StreamTurn::Ask(
                BatchStreaming {
                    stage: StreamStage::First { ready, zero, tokens, ids, step },
                    ..self
                },
                ask,
            ),
            TokenTurn::Token { id, token, mask } => exists|rest: BatchStreaming|
                {
                    &&& rest == (BatchStreaming { masks: rest.masks, ..self })
                    &&& rest.masks@ == self.masks@.update(tokens@.len() as int, mask)
                    &&& #[trigger] rest.samples_first(
                        ready,
                        zero,
                        tokens@.push(token),
                        ids@.push(id),
                        turn,
                    )
                },
        }
    }

    /// What a token that was sampled next leads to.
    pub open spec fn takes_next(
        self,
        played: Played,
        k: usize,
        t: TokenTurn,
        turn: StreamTurn,
    ) -> bool {
        let a = played.active@[k as int] as int;
        match t {
            TokenTurn::Ask(step, ask) => turn == StreamTurn::Ask(
                BatchStreaming { stage: StreamStage::Next { played, k, step }, ..self },
                ask,
            ),
            TokenTurn::Token { id, token, mask } => exists|rest: BatchStreaming, q: Played|
                {
                    &&& rest == (BatchStreaming { masks: rest.masks, ..self })
                    &&& rest.masks@ == self.masks@.update(a, mask)
                    &&& q == (Played {
                        batch: Batch {
                            tokens: q.batch.tokens,
                            ids: q.batch.ids,
                            ..played.batch
                        },
                        ..played
                    })
                    &&& q.batch.tokens@ == played.batch.tokens@.update(a, token)
                    &&& q.batch.ids@ == played.batch.ids@.update(a, id)
                    &&& #[trigger] rest.samples_next(q, k + 1, turn)
                },
        }
    }

    /// What a reply leads to.
    pub open spec fn steps(self, reply: Reply, turn: StreamTurn) -> bool {
        let idle = self.idle();
        match self.stage {
            StreamStage::Prompts(p) => exists|t: PromptTurn| #[trigger]
                p.steps(reply, t) && match t {
                    PromptTurn::Ask(p, ask) => turn == StreamTurn::Ask(
                        BatchStreaming { stage: StreamStage::Prompts(p), ..self },
                        ask,
                    ),
                    PromptTurn::Built { embeds, ids } => {
                        &&& turn matches StreamTurn::Ask(next, ask)
                        &&& next == (BatchStreaming { stage: next.stage, ..self })
                        &&& next.stage matches StreamStage::Starting(b)
                        &&& BatchStart::starts(
                            embeds@,
                            ids,
                            greatest(self.limits@),
                            true,
                            self.device,
                            (b, ask),
                        )
                    },
                },
            StreamStage::Starting(b) => exists|t: BatchStartTurn| #[trigger]
                b.steps(reply, t) && match t {
                    BatchStartTurn::Ask(b, ask) => turn == StreamTurn::Ask(
                        BatchStreaming { stage: StreamStage::Starting(b), ..self },
                        ask,
                    ),
                    BatchStartTurn::Ready(ready) => exists|zero: Tensor|
                        {
                            &&& grid(zero) == zero_input(
                                self.compute_dtype,
                                device_location(self.device),
                                ready.width,
                            )
                            &&& #[trigger] idle.samples_first(
                                ready,
                                zero,
                                Seq::empty(),
                                Seq::empty(),
                                turn,
                            )
                        },
                },
            StreamStage::First { ready, zero, tokens, ids, step } => exists|t: TokenTurn| #[trigger]
                step.steps(reply, t) && idle.takes_first(ready, zero, tokens, ids, t, turn),
            StreamStage::Playing(r) => exists|t: RoundTurn| #[trigger]
                r.steps(reply, t) && match t {
                    RoundTurn::Ask(r, ask) => turn == StreamTurn::Ask(
                        BatchStreaming { stage: StreamStage::Playing(r), ..self },
                        ask,
                    ),
                    RoundTurn::Played(p) => idle.plays(p, turn),
                },
            StreamStage::Next { played, k, step } => exists|t: TokenTurn| #[trigger]
                step.steps(reply, t) && idle.takes_next(played, k, t, turn),
            StreamStage::Decoding { batch, lane } => match reply {
                Reply::Tensor(waveform) => turn == StreamTurn::Ask(
                    BatchStreaming { stage: StreamStage::Reading { batch, lane }, ..self },
                    Request::ToAudio(waveform, SAMPLE_RATE),
                ),
                Reply::Failed => idle.goes_on(batch, lane, turn),
                _ => false,
            },
            StreamStage::Reading { batch, lane } => match reply {
                Reply::Audio(audio) => turn == (StreamTurn::Chunk {
                    sequence: lane,
                    audio,
                    rest: BatchStreaming { stage: StreamStage::Sent { batch, lane }, ..self },
                }),
                Reply::Failed => idle.goes_on(batch, lane, turn),
                _ => false,
            },
            StreamStage::Sent { .. } => false,
        }
    }

    /// What is buffered of a sequence becomes a chunk: a full one, unless the
    /// sequence has ended.
    proof fn lemma_lane(self, batch: Option<Batch>, lane: int)
        requires
            self.is_idle(),
            0 <= lane < self.count(),
            self.buffers@[lane]@.len() > 0,
            match batch {
                Some(b) => self.fits_chunk(b, lane),
                None => self.tracks(self.all_over()),
            },
        ensures
            is_cut(
                self.made@[lane],
                Seq::empty(),
                self.chunks@[lane].push(all_values(self.buffers@)[lane]),
                self.chunk_frames as int,
                self.over_with(batch)[lane],
            ),
    {
        let made = self.made@[lane];
        let frames = all_values(self.buffers@)[lane];
        let chunks = self.chunks@[lane];
        let c = self.chunk_frames as int;
        let over = self.over_with(batch)[lane];
        assert(frames == values(self.buffers@[lane]@));
        assert(frames.len() == self.buffers@[lane]@.len());
        assert(all_values(self.buffers@).len() == self.count());
        assert(self.tracks(self.over_with(batch)));
        assert(is_cut(made, frames, chunks, c, over));
        if !over {
            lemma_full(made, frames, chunks, c);
        }
        lemma_take(made, frames, chunks, c, over);
    }

    /// The sequences are in order when one is taken.
    proof fn lemma_lane_taken(self, batch: Option<Batch>, lane: usize, next: BatchStreaming)
        requires
            self.is_idle(),
            lane < self.count(),
            self.buffers@[lane as int]@.len() > 0,
            match batch {
                Some(b) => self.fits_chunk(b, lane as int),
                None => self.tracks(self.all_over()) && self.is_empty_before(lane as int),
            },
            self.takes_lane(lane as int, next),
        ensures
            next.is_idle(),
            next.fits_lane(batch, lane),
    {
        let done = self.over_with(batch);
        let codes = all_values(self.buffers@);
        let now = all_values(next.buffers@);
        assert(codes.len() == self.count());
        assert(now.len() == next.count());
        self.lemma_lane(batch, lane as int);
        assert forall|i: int| 0 <= i < next.count() implies is_cut(
            #[trigger] next.made@[i],
            now[i],
            next.chunks@[i],
            next.chunk_frames as int,
            done[i],
        ) by {
            assert(next.made@[i] == self.made@[i]);
        }
        assert forall|i: int| 0 <= i < lane + 1 implies (#[trigger] next.buffers@[i])@.len() == 0 by {
            assert(now[i] == values(next.buffers@[i]@));
            assert(now[i].len() == next.buffers@[i]@.len());
            if i < lane {
                assert(self.buffers@[i]@.len() == 0);
                assert(codes[i] == values(self.buffers@[i]@));
                assert(codes[i].len() == self.buffers@[i]@.len());
            }
        }
        assert forall|i: int| 0 <= i < now.len() implies (#[trigger] now[i]).len()
            <= self.chunk_frames by {
            if i != lane {
                assert(now[i] == codes[i]);
            }
        }
        assert(next.all_over() =~= self.all_over());
        assert(next.tracks(done));
    }

    /// More sequences count as ended.
    proof fn lemma_over(self, done: Seq<bool>, more: Seq<bool>)
        requires
            self.tracks(done),
            more.len() == done.len(),
            forall|i: int| 0 <= i < done.len() && done[i] ==> #[trigger] more[i],
        ensures
            self.tracks(more),
    {
        assert forall|i: int| 0 <= i < self.count() implies is_cut(
            #[trigger] self.made@[i],
            all_values(self.buffers@)[i],
            self.chunks@[i],
            self.chunk_frames as int,
            more[i],
        ) by {
            assert(done[i] ==> more[i]);
        }
    }

    /// At first nothing is cut.
    proof fn lemma_fresh(self, done: Seq<bool>)
        requires
            self.is_idle(),
            self.is_fresh(),
            done.len() == self.count(),
        ensures
            self.tracks(done),
    {
        let codes = all_values(self.buffers@);
        assert(codes.len() == self.count());
        assert forall|i: int| 0 <= i < self.count() implies is_cut(
            #[trigger] self.made@[i],
            codes[i],
            self.chunks@[i],
            self.chunk_frames as int,
            done[i],
        ) by {
            assert(self.made@[i].len() <= 0);
            assert(codes[i].len() <= 0);
            assert(self.made@[i] =~= Seq::<Seq<u32>>::empty());
            assert(codes[i] =~= Seq::<Seq<u32>>::empty());
            assert(self.chunks@[i] =~= Seq::<Seq<Seq<u32>>>::empty());
            lemma_nothing_cut(self.chunk_frames as int, done[i]);
        }
    }

    /// The frames of a round are buffered.
    proof fn lemma_buffered(
        self,
        done: Seq<bool>,
        active: Seq<usize>,
        rows: Seq<Seq<u32>>,
        next: BatchStreaming,
        frames: int,
    )
        requires
            self.is_idle(),
            self.tracks(done),
            self.in_step(done, frames),
            indices(active) == actives(done),
            rows.len() == active.len(),
            next == (BatchStreaming { buffers: next.buffers, made: next.made, ..self }),
            all_values(next.buffers@) == with_frames(all_values(self.buffers@), active, rows),
            next.made@ == with_frames(self.made@, active, rows),
            next.count() == self.count(),
        ensures
            next.tracks(done),
            next.in_step(done, frames + 1),
    {
        let codes = all_values(self.buffers@);
        let now = all_values(next.buffers@);
        assert(codes.len() == self.count());
        lemma_in_order(done, active);
        lemma_with_frames(codes, active, rows);
        lemma_with_frames(self.made@, active, rows);
        lemma_actives(done);
        assert(indices(active).len() == active.len());
        assert forall|i: int| 0 <= i < next.count() implies is_cut(
            #[trigger] next.made@[i],
            now[i],
            next.chunks@[i],
            next.chunk_frames as int,
            done[i],
        ) && (!done[i] ==> next.made@[i].len() == frames + 1) by {
            assert(is_cut(
                self.made@[i],
                codes[i],
                self.chunks@[i],
                self.chunk_frames as int,
                done[i],
            ));
            if done[i] {
                assert forall|k: int| 0 <= k < active.len() implies active[k] != i by {
                    assert(indices(active)[k] == active[k]);
                }
                assert(now[i] == codes[i]);
                assert(next.made@[i] == self.made@[i]);
            } else {
                assert(actives(done).contains(i));
                let k = choose|k: int| 0 <= k < actives(done).len() && actives(done)[k] == i;
                assert(indices(active)[k] == active[k]);
                assert(now[active[k] as int] == codes[active[k] as int].push(rows[k]));
                assert(next.made@[active[k] as int] == self.made@[active[k] as int].push(rows[k]));
                lemma_buffer(
                    self.made@[i],
                    codes[i],
                    self.chunks@[i],
                    self.chunk_frames as int,
                    rows[k],
                );
            }
        }
    }

    /// Take up what came of making a tensor of the frames of a sequence: it is
    /// decoded, or the sequence is passed over.
    pub fn take_lane(self, batch: Option<Batch>, lane: usize, made: Result<Tensor, TtsError>) -> (r:
        StreamTurn)
        requires
            self.is_idle(),
            lane < self.count(),
            self.buffers@[lane as int]@.len() > 0,
            match batch {
                Some(b) => self.fits_chunk(b, lane as int),
                None => self.tracks(self.all_over()) && self.is_empty_before(lane as int),
            },
        ensures
            r.wf(),
            made matches Ok(t) ==> (r matches StreamTurn::Ask(next, ask) && self.takes_lane(
                lane as int,
                next,
            ) && next.stage == (StreamStage::Decoding { batch, lane }) && ask == Request::Decode(t)),
            made matches Err(e) ==> (r matches StreamTurn::Passed { sequence, error, rest }
                && sequence == lane && error == e && self.takes_lane(lane as int, rest)
                && rest.stage == (StreamStage::Sent { batch, lane })),
    {
        let mut buffers = self.buffers;
        buffers.set(lane, Vec::new());
        proof {
            let codes = all_values(self.buffers@);
            let now = all_values(buffers@);
            assert forall|i: int| 0 <= i < now.len() implies #[trigger] now[i] == codes.update(
                lane as int,
                Seq::<Seq<u32>>::empty(),
            )[i] by {
                if i == lane {
                    assert(values(buffers@[i]@) =~= Seq::<Seq<u32>>::empty());
                } else {
                    assert(buffers@[i] == self.buffers@[i]);
                }
            }
            assert(now =~= codes.update(lane as int, Seq::<Seq<u32>>::empty()));
            assert(codes.len() == self.buffers@.len());
            self.lemma_lane(batch, lane as int);
        }
        let chunks = Ghost(
            self.chunks@.update(
                lane as int,
                self.chunks@[lane as int].push(all_values(self.buffers@)[lane as int]),
            ),
        );
        match made {
            Ok(t) => {
                let stage = StreamStage::Decoding { batch, lane };
                let next = BatchStreaming { buffers, chunks, stage, ..self };
                proof {
                    self.lemma_lane_taken(batch, lane, next);
                }
                StreamTurn::Ask(next, Request::Decode(t))
            },
            Err(error) => {
                let stage = StreamStage::Sent { batch, lane };
                let rest = BatchStreaming { buffers, chunks, stage, ..self };
                proof {
                    self.lemma_lane_taken(batch, lane, rest);
                }
                StreamTurn::Passed { sequence: lane, error, rest }
            },
        }
    }

    /// Decode what is buffered at the end.
    fn flush(self, from: usize) -> (r: StreamTurn)
        requires
            self.is_idle(),
            from <= self.count(),
            self.tracks(self.all_over()),
            self.is_empty_before(from as int),
        ensures
            self.flushes(from as int, r),
            r.wf(),
            !(r is Chunk),
    {
        let lane = next_full(&self.buffers, from);
        proof {
            let codes = all_values(self.buffers@);
            assert(codes.len() == self.buffers@.len());
            assert(is_next_lane(codes, from as int, lane as int));
            assert forall|i: int| 0 <= i < lane implies (#[trigger] self.buffers@[i])@.len() == 0 by {
                assert(codes[i] == values(self.buffers@[i]@));
                assert(codes[i].len() == self.buffers@[i]@.len());
            }
        }
        if lane < self.buffers.len() {
            let made = frames_to_tensor(&self.buffers[lane], &self.device);
            proof {
                assert(all_values(self.buffers@)[lane as int] == values(
                    self.buffers@[lane as int]@,
                ));
                assert(values(self.buffers@[lane as int]@).len()
                    == self.buffers@[lane as int]@.len());
            }
            self.take_lane(None, lane, made)
        } else {
            StreamTurn::End
        }
    }

    /// Go on with the next tokens.
    fn proceed(self, batch: Batch) -> (r: StreamTurn)
        requires
            self.is_idle(),
            self.fits_batch(batch),
            self.buffers_at_most(batch.index as int % self.chunk_frames as int),
        ensures
            self.proceeds(batch, r),
            r.wf(),
            !(r is Chunk),
    {
        let mut next = batch;
        mark_ended(
            &mut next.done,
            &next.ids,
            &next.ends,
            next.index,
            &self.limits,
        );
        let active = active_of(&next.done);
        proof {
            assert(indices(active@).len() == active@.len());
            self.lemma_over(batch.done@, next.done@);
            self.lemma_over(batch.done@, self.all_over());
        }
        if active.len() > 0 {
            assert(next.marked());
            proof {
                lemma_actives(next.done@);
                let i = actives(next.done@)[0];
                assert(!next.done@[i]);
                lemma_greatest(self.limits@, i);
            }
            let (round, ask) = Round::start(next);
            let stage = StreamStage::Playing(round);
            StreamTurn::Ask(BatchStreaming { stage, ..self }, ask)
        } else {
            self.flush(0)
        }
    }

    /// Decode a chunk of each sequence.
    fn chunk(self, batch: Batch, from: usize) -> (r: StreamTurn)
        requires
            self.is_idle(),
            self.fits_chunk(batch, from as int),
            from <= self.count(),
        ensures
            self.chunks(batch, from as int, r),
            r.wf(),
            !(r is Chunk),
    {
        let lane = next_full(&self.buffers, from);
        proof {
            let codes = all_values(self.buffers@);
            assert(codes.len() == self.buffers@.len());
            assert(is_next_lane(codes, from as int, lane as int));
            assert forall|i: int| 0 <= i < lane implies (#[trigger] self.buffers@[i])@.len() == 0 by {
                assert(codes[i] == values(self.buffers@[i]@));
                assert(codes[i].len() == self.buffers@[i]@.len());
            }
        }
        if lane < self.buffers.len() {
            let made = frames_to_tensor(&self.buffers[lane], &self.device);
            proof {
                assert(all_values(self.buffers@)[lane as int] == values(
                    self.buffers@[lane as int]@,
                ));
                assert(values(self.buffers@[lane as int]@).len()
                    == self.buffers@[lane as int]@.len());
            }
            self.take_lane(Some(batch), lane, made)
        } else {
            proof {
                assert forall|i: int| 0 <= i < self.count() implies (#[trigger] all_values(
                    self.buffers@,
                )[i]).len() <= 0 by {
                    assert(self.buffers@[i]@.len() == 0);
                    assert(values(self.buffers@[i]@).len() == self.buffers@[i]@.len());
                }
            }
            self.proceed(batch)
        }
    }

    /// Sample the first token of the next sequence.
    fn sample_first(self, ready: BatchReady, zero: Tensor, tokens: Vec<Tensor>, ids: Vec<u32>) -> (r:
        Result<StreamTurn, TtsError>)
        requires
            self.is_idle(),
            self.fits_ready(ready),
            are_tokens(tokens@, ids@),
            tokens@.len() <= self.count(),
            self.is_fresh(),
        ensures
            r matches Ok(turn) ==> self.samples_first(ready, zero, tokens@, ids@, turn),
            r matches Ok(turn) ==> turn.wf(),
            r matches Ok(turn) ==> !(turn is Chunk),
            r matches Err(e) ==> e.is_computing(),
            (tokens@.len() < self.count() ==> takes_logits(ready.logits@[tokens@.len() as int]))
                ==> r is Ok,
    {
        let i = tokens.len();
        let n = self.buffers.len();
        if i < n {
            let mask = copy(&self.masks[i]);
            match TokenStep::start(self.configs[i], i, 0, mask, &ready.logits[i]) {
                Ok((step, ask)) => {
                    let stage = StreamStage::First { ready, zero, tokens, ids, step };
                    Ok(StreamTurn::Ask(BatchStreaming { stage, ..self }, ask))
                },
                Err(e) => Err(e),
            }
        } else {
            let mut done: Vec<bool> = Vec::new();
            let mut j: usize = 0;
            while j < n
                invariant
                    j <= n,
                    done@ == Seq::new(j as nat, |k: int| false),
                decreases n - j,
            {
                done.push(false);
                assert(done@ =~= Seq::new((j + 1) as nat, |k: int| false));
                j = j + 1;
            }
            let batch = Batch {
                ends: ends_for(&self.configs),
                offset: ready.offset,
                index: 0,
                pad: ready.pad,
                zero,
                tokens,
                ids,
                done,
                last_hiddens: ready.last_hiddens,
                trailings: ready.trailings,
                lens: ready.lens,
            };
            let ghost b = batch;
            proof {
                self.lemma_fresh(b.done@);
                assert forall|i: int| 0 <= i < self.count() && !b.done@[i] implies (
                #[trigger] self.made@[i]).len() == 0 by {
                    assert(self.made@[i].len() <= 0);
                }
            }
            let turn = self.proceed(batch);
            assert(self.proceeds(b, turn));
            Ok(turn)
        }
    }

    /// Sample the next token of a sequence.
    fn sample_next(self, played: Played, k: usize) -> (r: Result<StreamTurn, TtsError>)
        requires
            self.is_idle(),
            self.fits_played(played),
            self.since_chunk(played),
            k <= played.active@.len(),
        ensures
            r matches Ok(turn) ==> self.samples_next(played, k as int, turn),
            r matches Ok(turn) ==> turn.wf(),
            r matches Ok(turn) ==> !(turn is Chunk),
            r matches Err(e) ==> e.is_computing(),
            k == played.active@.len() || samples_on_cpu(played, k as int) ==> r is Ok,
    {
        if k < played.active.len() {
            let a = played.active[k];
            proof {
                lemma_actives(played.batch.done@);
                assert(indices(played.active@)[k as int] == a);
            }
            let row = match part(&played.logits, 0, a, 1) {
                Ok(t) => t,
                Err(e) => {
                    return Err(e);
                },
            };
            let mask = copy(&self.masks[a]);
            match TokenStep::start(self.configs[a], a, played.batch.index, mask, &row) {
                Ok((step, ask)) => {
                    proof {
                        assert(TokenStep::starts(
                            self.configs@[a as int],
                            a,
                            played.batch.index,
                            self.masks@[a as int],
                            row,
                            (step, ask),
                        ));
                    }
                    let stage = StreamStage::Next { played, k, step };
                    Ok(StreamTurn::Ask(BatchStreaming { stage, ..self }, ask))
                },
                Err(e) => Err(e),
            }
        } else if played.batch.index % self.chunk_frames == 0 {
            Ok(self.chunk(played.batch, 0))
        } else {
            proof {
                lemma_next_remainder(played.batch.index as int, self.chunk_frames as int);
            }
            Ok(self.proceed(played.batch))
        }
    }

    /// Take up the frames of a round.
    fn play(self, p: Played) -> (r: Result<StreamTurn, TtsError>)
        requires
            self.is_idle(),
            self.has_sequences(p.batch),
            indices(p.active@) == actives(p.batch.done@),
            p.batch.index > 0,
            self.tracks(p.batch.done@),
            self.in_step(p.batch.done@, p.batch.index - 1),
            p.frames@.len() == p.active@.len(),
            self.buffers_at_most((p.batch.index - 1) % self.chunk_frames as int),
            at_most(self.made@, p.batch.index - 1),
            allows(self.limits@, p.batch.done@, p.batch.index as int),
        ensures
            r matches Ok(turn) ==> self.plays(p, turn),
            r matches Ok(turn) ==> turn.wf(),
            r matches Ok(turn) ==> !(turn is Chunk),
            r matches Err(e) ==> e.is_computing(),
            plays_on_cpu(p) ==> r is Ok,
    {
        let rows = match read_frames(&p.frames) {
            Ok(rows) => rows,
            Err(e) => {
                return Err(e);
            },
        };
        let ghost p0 = p;
        let q = match take_hiddens(p) {
            Ok(q) => q,
            Err(e) => {
                return Err(e);
            },
        };
        proof {
            lemma_in_order(q.batch.done@, q.active@);
            lemma_one_more(
                all_values(self.buffers@),
                q.active@,
                values(rows@),
                (p0.batch.index - 1) % self.chunk_frames as int,
            );
            lemma_one_more(self.made@, q.active@, values(rows@), p0.batch.index - 1);
            lemma_stay_within(
                self.made@,
                q.batch.done@,
                q.active@,
                values(rows@),
                self.limits@,
                p0.batch.index - 1,
            );
        }
        let mut buffers = self.buffers;
        append_frames(&mut buffers, &q.active, &rows);
        proof {
            assert(all_values(buffers@).len() == buffers@.len());
            assert(all_values(self.buffers@).len() == self.buffers@.len());
        }
        let made = Ghost(with_frames(self.made@, q.active@, values(rows@)));
        let rest = BatchStreaming { buffers, made, ..self };
        let ghost rest0 = rest;
        proof {
            self.lemma_buffered(
                q.batch.done@,
                q.active@,
                values(rows@),
                rest0,
                p0.batch.index - 1,
            );
        }
        match rest.sample_next(q, 0) {
            Ok(turn) => {
                proof {
                    assert(are_codes(p0.frames@, rows@));
                    assert(has_hiddens(p0, q));
                    assert(rest0.samples_next(q, 0, turn));
                }
                Ok(turn)
            },
            Err(e) => Err(e),
        }
    }

    /// Go on behind a chunk.
    fn next_lane(self, batch: Option<Batch>, lane: usize) -> (r: StreamTurn)
        requires
            self.is_idle(),
            self.fits_lane(batch, lane),
        ensures
            self.goes_on(batch, lane, r),
            r.wf(),
            !(r is Chunk),
    {
        let n = self.buffers.len();
        match batch {
            Some(b) => self.chunk(b, lane + 1),
            None => self.flush(lane + 1),
        }
    }

    /// Go on behind a chunk that was sent.
    pub fn go_on(self) -> (r: StreamTurn)
        requires
            self.wf(),
            self.stage is Sent,
        ensures
            self.stage matches StreamStage::Sent { batch, lane } ==> self.idle().goes_on(
                batch,
                lane,
                r,
            ),
            r.wf(),
            !(r is Chunk),
    {
        match self.stage {
            StreamStage::Sent { batch, lane } => {
                let idle = BatchStreaming {
                    stage: StreamStage::Sent { batch: None, lane: 0 },
                    ..self
                };
                idle.next_lane(batch, lane)
            },
            _ => StreamTurn::End,
        }
    }
}

impl BatchStreaming {
    /// Whether a reply can be taken up in any case: what is computed with it is on
    /// the CPU and fits.
    pub open spec fn accepts(self, reply: Reply) -> bool {
        &&& self.awaits(reply)
        &&& match self.stage {
            StreamStage::Prompts(p) => {
                &&& p.accepts(reply)
                &&& forall|embeds: Vec<Tensor>, ids: Vec<Vec<u32>>| #[trigger]
                    p.steps(reply, PromptTurn::Built { embeds, ids }) ==> starts_on_cpu(
                        embeds@,
                        greatest(self.limits@),
                        true,
                        device_location(self.device),
                    )
            },
            StreamStage::Starting(b) => {
                &&& b.accepts(reply)
                &&& forall|ready: BatchReady| #[trigger]
                    b.steps(reply, BatchStartTurn::Ready(ready)) ==> device_location(
                        self.device,
                    ) is Cpu && takes_logits(ready.logits@[0]) && countable(
                        seq![1usize, 1, ready.width],
                    )
            },
            StreamStage::First { ready, tokens, step, .. } => {
                &&& step.accepts(reply)
                &&& tokens@.len() + 1 < self.count() ==> takes_logits(
                    ready.logits@[tokens@.len() as int + 1],
                )
            },
            StreamStage::Playing(r) => {
                &&& r.accepts(reply)
                &&& forall|p: Played| #[trigger]
                    r.steps(reply, RoundTurn::Played(p)) ==> plays_on_cpu(p)
            },
            StreamStage::Next { played, k, step } => {
                &&& step.accepts(reply)
                &&& k + 1 < played.active@.len() ==> samples_on_cpu(played, k + 1)
            },
            _ => true,
        }
    }

    /// Start with the prompts of several texts.
    pub fn start(
        prompts: BatchPrefill,
        configs: Vec<GenerationConfig>,
        compute_dtype: DType,
        chunk_frames: usize,
        device: Device,
    ) -> (r: Result<BatchStreaming, TtsError>)
        requires
            prompts.wf(),
            configs@.len() == prompts.items@.len(),
            compute_dtype != DType::Other,
            chunk_frames > 0,
        ensures
            r matches Ok(s) ==> {
                &&& s.wf()
                &&& s == (BatchStreaming {
                    configs,
                    limits: s.limits,
                    compute_dtype,
                    device,
                    chunk_frames,
                    buffers: s.buffers,
                    masks: s.masks,
                    made: s.made,
                    chunks: s.chunks,
                    stage: StreamStage::Prompts(prompts),
                })
                &&& s.made@ == all_values(s.buffers@)
                &&& s.chunks@ == Seq::new(
                    prompts.items@.len(),
                    |i: int| Seq::<Seq<Seq<u32>>>::empty(),
                )
                &&& all_values(s.buffers@) == Seq::new(
                    prompts.items@.len(),
                    |i: int| Seq::<Seq<u32>>::empty(),
                )
                &&& forall|i: int|
                    0 <= i < s.masks@.len() ==> empty_mask(grid(#[trigger] s.masks@[i]))
            },
            r matches Err(e) ==> e is Tensor,
            device_location(device) is Cpu ==> r is Ok,
    {
        let n = prompts.items.len();
        let mut buffers: Vec<FrameCodes> = Vec::new();
        let mut masks: Vec<Tensor> = Vec::new();
        let mut i: usize = 0;
        while i < n
            invariant
                i <= n,
                buffers@.len() == i,
                masks@.len() == i,
                forall|j: int| 0 <= j < i ==> (#[trigger] buffers@[j])@.len() == 0,
                forall|j: int| 0 <= j < i ==> empty_mask(grid(#[trigger] masks@[j])),
            decreases n - i,
        {
            match new_mask(&device) {
                Ok(m) => {
                    masks.push(m);
                },
                Err(e) => {
                    return Err(e);
                },
            }
            buffers.push(Vec::new());
            i = i + 1;
        }
        proof {
            assert forall|j: int| 0 <= j < n implies #[trigger] all_values(buffers@)[j] == Seq::<
                Seq<u32>,
            >::empty() by {
                assert(values(buffers@[j]@) =~= Seq::<Seq<u32>>::empty());
            }
            assert(all_values(buffers@) =~= Seq::new(n as nat, |i: int| Seq::<Seq<u32>>::empty()));
        }
        let stage = StreamStage::Prompts(prompts);
        let limits = limits_for(&configs);
        let made = Ghost(all_values(buffers@));
        let chunks = Ghost(Seq::new(n as nat, |i: int| Seq::<Seq<Seq<u32>>>::empty()));
        Ok(
            BatchStreaming {
                configs,
                limits,
                compute_dtype,
                device,
                chunk_frames,
                buffers,
                masks,
                made,
                chunks,
                stage,
            },
        )
    }

    /// Take up what generation starts from.
    fn ready_up(self, ready: BatchReady) -> (r: Result<StreamTurn, TtsError>)
        requires
            self.is_idle(),
            self.fits_ready(ready),
            self.is_fresh(),
        ensures
            r matches Ok(turn) ==> exists|zero: Tensor|
                {
                    &&& grid(zero) == zero_input(
                        self.compute_dtype,
                        device_location(self.device),
                        ready.width,
                    )
                    &&& #[trigger] self.samples_first(
                        ready,
                        zero,
                        Seq::empty(),
                        Seq::empty(),
                        turn,
                    )
                },
            r matches Ok(turn) ==> turn.wf(),
            r matches Ok(turn) ==> !(turn is Chunk),
            r matches Err(e) ==> e.is_computing(),
            device_location(self.device) is Cpu && takes_logits(ready.logits@[0]) && countable(
                seq![1usize, 1, ready.width],
            ) ==> r is Ok,
    {
        let width = ready.width;
        let shape: Vec<usize> = vec![1, 1, width];
        assert(shape@ =~= seq![1usize, 1, width]);
        if !is_countable(&shape) {
            return Err(TtsError::Overflow);
        }
        match zeros(&shape, self.compute_dtype, &self.device) {
            Ok(zero) => {
                let tokens: Vec<Tensor> = Vec::new();
                let ids: Vec<u32> = Vec::new();
                proof {
                    assert(tokens@ =~= Seq::empty());
                    assert(ids@ =~= Seq::empty());
                }
                self.sample_first(ready, zero, tokens, ids)
            },
            Err(e) => Err(TtsError::Tensor(e)),
        }
    }

    /// Take up a reply on the first token of a sequence.
    fn take_first(
        self,
        ready: BatchReady,
        zero: Tensor,
        tokens: Vec<Tensor>,
        ids: Vec<u32>,
        step: TokenStep,
        reply: Reply,
    ) -> (r: Result<StreamTurn, TtsError>)
        requires
            self.is_idle(),
            self.fits_ready(ready),
            are_tokens(tokens@, ids@),
            tokens@.len() < self.count(),
            self.is_fresh(),
            step.wf(),
            step.sequence == tokens@.len(),
        ensures
            r matches Ok(turn) ==> exists|t: TokenTurn| #[trigger]
                step.steps(reply, t) && self.takes_first(ready, zero, tokens, ids, t, turn),
            r matches Ok(turn) ==> turn.wf(),
            r matches Ok(turn) ==> !(turn is Chunk),
            (r matches Err(e) && e is UnexpectedReply) <==> !(reply is Tensor),
            step.accepts(reply) && (tokens@.len() + 1 < self.count() ==> takes_logits(
                ready.logits@[tokens@.len() as int + 1],
            )) ==> r is Ok,
    {
        let turn = match step.step(reply) {
            Ok(t) => t,
            Err(e) => {
                return Err(e);
            },
        };
        let ghost t0 = turn;
        assert(step.steps(reply, t0));
        match turn {
            TokenTurn::Ask(step, ask) => {
                let stage = StreamStage::First { ready, zero, tokens, ids, step };
                Ok(StreamTurn::Ask(BatchStreaming { stage, ..self }, ask))
            },
            TokenTurn::Token { id, token, mask } => {
                let i = tokens.len();
                let mut masks = self.masks;
                masks.set(i, mask);
                let mut all = tokens;
                let mut all_ids = ids;
                all.push(token);
                all_ids.push(id);
                let rest = BatchStreaming { masks, ..self };
                let ghost rest0 = rest;
                match rest.sample_first(ready, zero, all, all_ids) {
                    Ok(out) => {
                        proof {
                            assert(rest0.samples_first(ready, zero, all@, all_ids@, out));
                            assert(self.takes_first(ready, zero, tokens, ids, t0, out));
                        }
                        Ok(out)
                    },
                    Err(e) => Err(e),
                }
            },
        }
    }

    /// Take up a reply on the next token of a sequence.
    fn take_next(self, played: Played, k: usize, step: TokenStep, reply: Reply) -> (r: Result<
        StreamTurn,
        TtsError,
    >)
        requires
            self.is_idle(),
            self.fits_played(played),
            self.since_chunk(played),
            k < played.active@.len(),
            step.wf(),
            step.sequence == played.active@[k as int],
        ensures
            r matches Ok(turn) ==> exists|t: TokenTurn| #[trigger]
                step.steps(reply, t) && self.takes_next(played, k, t, turn),
            r matches Ok(turn) ==> turn.wf(),
            r matches Ok(turn) ==> !(turn is Chunk),
            (r matches Err(e) && e is UnexpectedReply) <==> !(reply is Tensor),
            step.accepts(reply) && (k + 1 < played.active@.len() ==> samples_on_cpu(played, k + 1))
                ==> r is Ok,
    {
        let turn = match step.step(reply) {
            Ok(t) => t,
            Err(e) => {
                return Err(e);
            },
        };
        let ghost t0 = turn;
        assert(step.steps(reply, t0));
        match turn {
            TokenTurn::Ask(step, ask) => {
                let stage = StreamStage::Next { played, k, step };
                Ok(StreamTurn::Ask(BatchStreaming { stage, ..self }, ask))
            },
            TokenTurn::Token { id, token, mask } => {
                let count = played.active.len();
                let a = played.active[k];
                proof {
                    lemma_actives(played.batch.done@);
                    assert(indices(played.active@)[k as int] == a);
                }
                let mut masks = self.masks;
                masks.set(a, mask);
                let mut tokens = played.batch.tokens;
                let mut ids = played.batch.ids;
                tokens.set(a, token);
                ids.set(a, id);
                let batch = Batch { tokens, ids, ..played.batch };
                let q = Played { batch, ..played };
                let ghost q0 = q;
                let rest = BatchStreaming { masks, ..self };
                let ghost rest0 = rest;
                match rest.sample_next(q, k + 1) {
                    Ok(out) => {
                        proof {
                            assert(rest0.samples_next(q0, k + 1, out));
                            assert(self.takes_next(played, k, t0, out));
                        }
                        Ok(out)
                    },
                    Err(e) => Err(e),
                }
            },
        }
    }

    /// Take up a reply.
    pub fn step(self, reply: Reply) -> (r: Result<StreamTurn, TtsError>)
        requires
            self.wf(),
        ensures
            r matches Ok(turn) ==> self.steps(reply, turn),
            r matches Ok(turn) ==> turn.wf(),
            (r matches Err(e) && e is UnexpectedReply) <==> !self.awaits(reply),
            self.accepts(reply) ==> r is Ok,
    {
        match self.stage {
            StreamStage::Prompts(p) => match p.step(reply) {
                Ok(PromptTurn::Ask(p, ask)) => {
                    let stage = StreamStage::Prompts(p);
                    Ok(StreamTurn::Ask(BatchStreaming { stage, ..self }, ask))
                },
                Ok(PromptTurn::Built { embeds, ids }) => {
                    let most = greatest_of(&self.limits);
                    match BatchStart::start(&embeds, ids, most, true, &self.device) {
                        Ok((b, ask)) => {
                            let stage = StreamStage::Starting(b);
                            Ok(StreamTurn::Ask(BatchStreaming { stage, ..self }, ask))
                        },
                        Err(e) => Err(e),
                    }
                },
                Err(e) => Err(e),
            },
            StreamStage::Starting(b) => match b.step(reply) {
                Ok(BatchStartTurn::Ask(b, ask)) => {
                    let stage = StreamStage::Starting(b);
                    Ok(StreamTurn::Ask(BatchStreaming { stage, ..self }, ask))
                },
                Ok(BatchStartTurn::Ready(ready)) => {
                    let idle = BatchStreaming {
                        stage: StreamStage::Sent { batch: None, lane: 0 },
                        ..self
                    };
                    idle.ready_up(ready)
                },
                Err(e) => Err(e),
            },
            StreamStage::First { ready, zero, tokens, ids, step } => {
                let idle = BatchStreaming {
                    stage: StreamStage::Sent { batch: None, lane: 0 },
                    ..self
                };
                idle.take_first(ready, zero, tokens, ids, step, reply)
            },
            StreamStage::Playing(round) => match round.step(reply) {
                Ok(RoundTurn::Ask(round, ask)) => {
                    let stage = StreamStage::Playing(round);
                    Ok(StreamTurn::Ask(BatchStreaming { stage, ..self }, ask))
                },
                Ok(RoundTurn::Played(p)) => {
                    let idle = BatchStreaming {
                        stage: StreamStage::Sent { batch: None, lane: 0 },
                        ..self
                    };
                    idle.play(p)
                },
                Err(e) => Err(e),
            },
            StreamStage::Next { played, k, step } => {
                let idle = BatchStreaming {
                    stage: StreamStage::Sent { batch: None, lane: 0 },
                    ..self
                };
                idle.take_next(played, k, step, reply)
            },
            StreamStage::Decoding { batch, lane } => match reply {
                Reply::Tensor(waveform) => {
                    let stage = StreamStage::Reading { batch, lane };
                    let ask = Request::ToAudio(waveform, SAMPLE_RATE);
                    Ok(StreamTurn::Ask(BatchStreaming { stage, ..self }, ask))
                },
                Reply::Failed => {
                    let idle = BatchStreaming {
                        stage: StreamStage::Sent { batch: None, lane: 0 },
                        ..self
                    };
                    Ok(idle.next_lane(batch, lane))
                },
                _ => Err(TtsError::UnexpectedReply),
            },
            StreamStage::Reading { batch, lane } => match reply {
                Reply::Audio(audio) => {
                    let rest = BatchStreaming { stage: StreamStage::Sent { batch, lane }, ..self };
                    Ok(StreamTurn::Chunk { sequence: lane, audio, rest })
                },
                Reply::Failed => {
                    let idle = BatchStreaming {
                        stage: StreamStage::Sent { batch: None, lane: 0 },
                        ..self
                    };
                    Ok(idle.next_lane(batch, lane))
                },
                _ => Err(TtsError::UnexpectedReply),
            },
            StreamStage::Sent { .. } => Err(TtsError::UnexpectedReply),
        }
    }
}

/// Whether the next token of a sequence can be sampled on the CPU.
pub open spec fn samples_on_cpu(played: Played, k: int) -> bool {
    let a = played.active@[k];
    &&& grid(played.logits).has_range(0, a, 1)
    &&& forall|row: Tensor|
        #![trigger grid(row)]
        grid(row) == grid(played.logits).narrow(0, a, 1) ==> takes_logits(row)
}

/// Whether the frames of a round can be taken up on the CPU.
pub open spec fn plays_on_cpu(p: Played) -> bool {
    &&& forall|k: int|
        0 <= k < p.frames@.len() ==> grid(#[trigger] p.frames@[k]).at_hand() && tensor_dtype(
            p.frames@[k],
        ) == DType::U32
    &&& tensor_dims(p.hidden).len() > 0
    &&& tensor_dims(p.hidden)[0] >= p.batch.tokens@.len()
    &&& p.active@.len() > 0 ==> samples_on_cpu(p, 0)
}

/// The remainder grows by one until it starts again.
proof fn lemma_next_remainder(i: int, c: int)
    requires
        i > 0,
        c > 0,
        i % c != 0,
    ensures
        (i - 1) % c + 1 == i % c,
{
    let q = (i - 1) / c;
    let r = (i - 1) % c;
    vstd::arithmetic::div_mod::lemma_fundamental_div_mod(i - 1, c);
    vstd::arithmetic::div_mod::lemma_mod_bound(i - 1, c);
    assert(c * q == q * c) by (nonlinear_arith);
    if r + 1 < c {
        vstd::arithmetic::div_mod::lemma_fundamental_div_mod_converse(i, c, q, r + 1);
    } else {
        assert(i == (q + 1) * c) by (nonlinear_arith)
            requires
                i == q * c + r + 1,
                r + 1 == c,
        ;
        vstd::arithmetic::div_mod::lemma_fundamental_div_mod_converse(i, c, q + 1, 0);
    }
}

/// That tokens and their numbers agree.
pub open spec fn are_tokens(tokens: Seq<Tensor>, ids: Seq<u32>) -> bool {
    &&& tokens.len() == ids.len()
    &&& forall|i: int|
        0 <= i < tokens.len() ==> tensor_cells(#[trigger] tokens[i]).len() > 0 && tensor_cells(
            tokens[i],
        )[0] == ids[i]
}

} // verus!
