//! The synthesis of several texts side by side, step by step.
use crate::audio::AudioBuffer;
use crate::batch::{
    all_values, allows, append_frames, at_most, at_position, batch_grid, batch_tensor, choose_codes,
    chooses_on_cpu, chosen, each_of, empties, is_greedy, kept_samples, lemma_at_position,
    lemma_in_order, lemma_one_more, lemma_stay_within, longest_codes, most_frames, non_empty,
    rows_of, trimmed, wave_of, with_frames, within,
};
use crate::batch_prompt::{BatchPrefill, PromptTurn};
use crate::batch_start::{starts_on_cpu, BatchReady, BatchStart, BatchStartTurn};
use crate::codes::{
    are_frames, codes_grid, fit_codebooks, frames_to_tensor, gpu_frames_to_frame_codes, transferred, values, FrameCodes,
    CODEBOOKS,
};
use crate::error::TtsError;
use crate::generation::{are_logits, to_logits};
use crate::generator::takes_logits;
use crate::grid::{cells_of, countable, volume, DType, Grid, Location};
use crate::ops::{concat, is_countable};
use crate::options::{greatest, greatest_of, lemma_greatest, SAMPLE_RATE};
use crate::request::{Reply, Request};
use crate::round::{
    active_of, actives, below_on_cpu, copy_ends, ended, indices, is_below, lemma_actives, mark_ended, Batch, Played, Round, RoundTurn,
};
use crate::synth::{SynthTurn, Synthesis};
use crate::tensor::{
    copy, device_location, grid, tensor_cells, tensor_dims, tensor_dtype, tensor_location, zeros,
};
use candle_core::{Device, Tensor};
use vstd::prelude::*;

verus! {

/// How far the synthesis has come.
pub enum BatchStage {
    /// The only text, on its own.
    Single(Synthesis),
    /// The prompts.
    Prompts(BatchPrefill),
    /// The talker on the prompts.
    Starting(BatchStart),
    /// The first tokens.
    First { ready: BatchReady, zero: Tensor },
    /// A frame of each sequence.
    Playing(Round),
    /// The tokens that come next.
    Choosing(Played),
    /// The waveform of the sequences that have frames.
    Decoding(Vec<usize>),
    /// The audio of one sequence after the other.
    Reading { order: Vec<usize>, waveform: Tensor, next: usize, results: Vec<AudioBuffer> },
}

/// Synthesis of several texts.
pub struct BatchSynthesis {
    /// How many frames each sequence may have.
    pub limits: Vec<usize>,
    /// The token that ends each sequence, if one does.
    pub ends: Vec<Option<u32>>,
    pub compute_dtype: DType,
    pub device: Device,
    /// The frames of each sequence.
    pub codes: Vec<FrameCodes>,
    pub stage: BatchStage,
}

/// What is wanted next.
pub enum BatchTurn {
    /// A reply of the model.
    Ask(BatchSynthesis, Request),
    /// Nothing: this is the audio of each text.
    Done(Vec<AudioBuffer>),
}

/// The contents of the input of a sequence that has ended.
pub open spec fn zero_input(dtype: DType, location: Location, width: usize) -> Grid {
    let dims = seq![1usize, 1, width];
    Grid { dtype, location, dims, cells: Seq::new(volume(dims), |i: int| 0int) }
}

/// No audio for any of `n` texts.
pub open spec fn silent(n: nat, audio: Seq<AudioBuffer>) -> bool {
    &&& audio.len() == n
    &&& forall|i: int|
        0 <= i < n ==> (#[trigger] audio[i]).samples@.len() == 0 && audio[i].sample_rate == SAMPLE_RATE
}

/// No audio for any of `n` texts.
fn silence(n: usize) -> (r: Vec<AudioBuffer>)
    ensures
        silent(n as nat, r@),
{
    let mut out: Vec<AudioBuffer> = Vec::new();
    let mut i: usize = 0;
    while i < n
        invariant
            i <= n,
            silent(i as nat, out@),
        decreases n - i,
    {
        out.push(AudioBuffer::new(Vec::new(), SAMPLE_RATE));
        i = i + 1;
    }
    out
}

/// The tokens of sequences as the greedy choice gives them.
pub open spec fn are_choices(logits: Grid, tokens: Seq<Tensor>, ids: Seq<u32>) -> bool {
    exists|line: Grid|
        {
            &&& #[trigger] is_greedy(logits, line)
            &&& tokens.len() <= line.cells.len()
            &&& ids.len() == tokens.len()
            &&& forall|i: int|
                0 <= i < tokens.len() ==> grid(#[trigger] tokens[i]) == at_position(line, i as usize)
            &&& forall|i: int| 0 <= i < tokens.len() ==> #[trigger] ids[i] == line.cells[i]
        }
}

/// The tokens of `n` sequences, and their numbers.
fn next_tokens(logits: &Tensor, n: usize) -> (r: Result<(Vec<Tensor>, Vec<u32>), TtsError>)
    requires
        n > 0,
    ensures
        r matches Ok((tokens, ids)) ==> {
            &&& tokens@.len() == n
            &&& are_choices(grid(*logits), tokens@, ids@)
            &&& forall|i: int|
                0 <= i < n ==> tensor_cells(#[trigger] tokens@[i]).len() > 0 && tensor_cells(
                    tokens@[i],
                )[0] == ids@[i]
        },
        r matches Err(e) ==> e.is_computing() || e is BadShape || e is BadBatch,
        chooses_on_cpu(grid(*logits), n as int) ==> r is Ok,
{
    let (line, all) = match choose_codes(logits, n) {
        Ok(both) => both,
        Err(e) => {
            return Err(e);
        },
    };
    let tokens = match each_of(&line, n) {
        Ok(v) => v,
        Err(e) => {
            return Err(e);
        },
    };
    let mut ids: Vec<u32> = Vec::new();
    let mut i: usize = 0;
    while i < n
        invariant
            i <= n,
            n <= all@.len(),
            ids@ == all@.take(i as int),
        decreases n - i,
    {
        ids.push(all[i]);
        assert(all@.take(i + 1) =~= all@.take(i as int).push(all@[i as int]));
        i = i + 1;
    }
    proof {
        assert forall|i: int| 0 <= i < n implies tensor_cells(#[trigger] tokens@[i]).len() > 0
            && tensor_cells(tokens@[i])[0] == ids@[i] by {
            lemma_at_position(grid(line), i as usize);
            assert(cells_of(all@)[i] == all@[i]);
        }
        assert forall|i: int| 0 <= i < n implies #[trigger] ids@[i] == tensor_cells(line)[i] by {
            assert(cells_of(all@)[i] == all@[i]);
        }
        assert(is_greedy(grid(*logits), grid(line)));
    }
    Ok((tokens, ids))
}

/// Whether these frames can be made a tensor on the CPU.
pub open spec fn decodes_on_cpu(codes: Seq<Seq<Seq<u32>>>, location: Location) -> bool {
    let order = actives(empties(codes));
    let items = Seq::new(order.len(), |k: int| codes[order[k]]);
    let most = most_frames(items) as usize;
    &&& location is Cpu
    &&& order.len() == 1 ==> fit_codebooks(codes[order[0]]) && codes[order[0]].len() * 256
        <= usize::MAX
    &&& order.len() > 1 ==> countable(seq![order.len() as usize, CODEBOOKS, most]) && CODEBOOKS * most
        <= usize::MAX
}

/// Whether the first tokens can be chosen behind these logits on the CPU.
pub open spec fn readies_on_cpu(logits: Seq<Tensor>, width: usize) -> bool {
    &&& below_on_cpu(logits)
    &&& forall|all: Tensor| #[trigger] is_below(logits, all) ==> takes_logits(all)
    &&& countable(seq![1usize, 1, width])
}

impl BatchSynthesis {
    /// There is a list of frames for each of several sequences, with no more frames
    /// than were made or than the sequence may have, and what a stage promises.
    pub open spec fn wf(self) -> bool {
        let n = self.codes@.len();
        &&& self.compute_dtype != DType::Other
        &&& !(self.stage is Single) ==> self.has_limits()
        &&& match self.stage {
            BatchStage::Single(s) => s.wf(),
            BatchStage::Prompts(p) => {
                &&& p.wf()
                &&& p.items@.len() == n
                &&& at_most(all_values(self.codes@), 0)
            },
            BatchStage::Starting(b) => {
                &&& b.wf()
                &&& b.ids@.len() == n
                &&& at_most(all_values(self.codes@), 0)
            },
            BatchStage::First { ready, .. } => {
                &&& n > 0
                &&& at_most(all_values(self.codes@), 0)
                &&& ready.last_hiddens@.len() == n
                &&& ready.trailings@.len() == n
                &&& ready.lens@.len() == n
            },
            BatchStage::Playing(r) => {
                &&& r.wf()
                &&& r.batch.tokens@.len() == n
                &&& r.batch.ends@ == self.ends@
                &&& r.batch.index < greatest(self.limits@)
                &&& at_most(all_values(self.codes@), r.batch.index as int)
                &&& allows(self.limits@, r.batch.done@, r.batch.index + 1)
            },
            BatchStage::Choosing(p) => {
                &&& p.batch.wf()
                &&& p.batch.tokens@.len() == n
                &&& p.batch.ends@ == self.ends@
                &&& indices(p.active@) == actives(p.batch.done@)
                &&& p.frames@.len() == p.active@.len()
                &&& p.batch.index <= greatest(self.limits@)
                &&& at_most(all_values(self.codes@), p.batch.index - 1)
                &&& allows(self.limits@, p.batch.done@, p.batch.index as int)
            },
            BatchStage::Decoding(order) => {
                &&& order@.len() > 0
                &&& forall|k: int| 0 <= k < order@.len() ==> #[trigger] order@[k] < n
            },
            BatchStage::Reading { order, next, results, .. } => {
                &&& next < order@.len()
                &&& forall|k: int| 0 <= k < order@.len() ==> #[trigger] order@[k] < n
                &&& results@.len() == n
            },
        }
    }

    /// Whether each sequence has a limit, an end token or none, and no more frames than
    /// it may have.
    pub open spec fn has_limits(self) -> bool {
        &&& within(all_values(self.codes@), self.limits@)
        &&& self.ends@.len() == self.codes@.len()
    }

    /// Whether this is a reply to what was asked.
    pub open spec fn awaits(self, reply: Reply) -> bool {
        match self.stage {
            BatchStage::Single(s) => s.awaits(reply),
            BatchStage::Prompts(p) => p.awaits(reply),
            BatchStage::Starting(b) => b.awaits(reply),
            BatchStage::First { .. } => reply is Tensor,
            BatchStage::Playing(r) => r.awaits(reply),
            BatchStage::Choosing(_) => reply is Tensor,
            BatchStage::Decoding(_) => reply is Tensor,
            BatchStage::Reading { .. } => reply is Audio,
        }
    }

    /// Whether the sequences can go on with these logits on the CPU.
    pub open spec fn chooses_next_on_cpu(self, p: Played, logits: Tensor) -> bool {
        &&& chooses_on_cpu(grid(logits), self.codes@.len() as int)
        &&& tensor_dims(p.hidden).len() > 0
        &&& tensor_dims(p.hidden)[0] >= self.codes@.len()
        &&& are_frames(p.frames@)
        &&& p.frames@.len() * 256 <= usize::MAX
        &&& forall|f: int|
            0 <= f < p.frames@.len() ==> tensor_location(#[trigger] p.frames@[f]) is Cpu
        &&& forall|rows: Seq<Vec<u32>>| #[trigger]
            transferred(p.frames@, rows) ==> decodes_on_cpu(
                with_frames(all_values(self.codes@), p.active@, values(rows)),
                device_location(self.device),
            )
    }

    /// Whether a reply can be taken up in any case: what is computed with it is on
    /// the CPU and fits.
    pub open spec fn accepts(self, reply: Reply) -> bool {
        match (self.stage, reply) {
            (BatchStage::Single(s), _) => s.accepts(reply),
            (BatchStage::Prompts(p), _) => {
                &&& p.accepts(reply)
                &&& forall|embeds: Vec<Tensor>, ids: Vec<Vec<u32>>| #[trigger]
                    p.steps(reply, PromptTurn::Built { embeds, ids }) ==> starts_on_cpu(
                        embeds@,
                        greatest(self.limits@),
                        false,
                        device_location(self.device),
                    )
            },
            (BatchStage::Starting(b), _) => {
                &&& b.accepts(reply)
                &&& forall|ready: BatchReady| #[trigger]
                    b.steps(reply, BatchStartTurn::Ready(ready)) ==> device_location(
                        self.device,
                    ) is Cpu && readies_on_cpu(ready.logits@, ready.width)
            },
            (BatchStage::First { .. }, Reply::Tensor(logits)) => {
                &&& chooses_on_cpu(grid(logits), self.codes@.len() as int)
                &&& decodes_on_cpu(all_values(self.codes@), device_location(self.device))
            },
            (BatchStage::Playing(r), _) => {
                &&& r.accepts(reply)
                &&& r.phase is Head ==> (reply matches Reply::Tensor(logits) && takes_logits(logits))
            },
            (BatchStage::Choosing(p), Reply::Tensor(logits)) => self.chooses_next_on_cpu(p, logits),
            (BatchStage::Decoding(order), Reply::Tensor(waveform)) => order@.len() == 1 || (grid(
                waveform,
            ).at_hand() && tensor_dtype(waveform) != DType::Other && grid(waveform).has_range(
                0,
                0,
                1,
            )),
            (BatchStage::Reading { order, waveform, next, .. }, Reply::Audio(_)) => next + 1
                == order@.len() || (grid(waveform).at_hand() && tensor_dtype(waveform)
                != DType::Other && grid(waveform).has_range(0, (next + 1) as usize, 1)),
            _ => false,
        }
    }

    /// That the frames are decoded next: one sequence on its own, several in one
    /// pass.
    pub open spec fn finishes(self, codes: Seq<Seq<Seq<u32>>>, turn: BatchTurn) -> bool {
        let order = actives(empties(codes));
        if order.len() == 0 {
            turn matches BatchTurn::Done(audio) && silent(codes.len(), audio@)
        } else {
            &&& turn matches BatchTurn::Ask(next, Request::Decode(t))
            &&& next == (BatchSynthesis { codes: next.codes, stage: next.stage, ..self })
            &&& all_values(next.codes@) == codes
            &&& next.stage matches BatchStage::Decoding(o)
            &&& indices(o@) == order
            &&& grid(t) == if order.len() == 1 {
                codes_grid(codes[order[0]], device_location(self.device))
            } else {
                let items = chosen(codes, o@);
                batch_grid(items, most_frames(items) as usize, device_location(self.device))
            }
        }
    }

    /// What the next tokens lead to: a frame of each sequence that has not ended,
    /// or the end.
    pub open spec fn proceeds(self, batch: Batch, codes: Seq<Seq<Seq<u32>>>, turn: BatchTurn) -> bool {
        let done = ended(
            batch.done@,
            batch.ids@,
            batch.ends@,
            batch.index,
            self.limits@,
        );
        if actives(done).len() > 0 {
            &&& turn matches BatchTurn::Ask(next, ask)
            &&& next == (BatchSynthesis { codes: next.codes, stage: next.stage, ..self })
            &&& all_values(next.codes@) == codes
            &&& next.stage matches BatchStage::Playing(round)
            &&& round.batch == (Batch { done: round.batch.done, ..batch })
            &&& round.batch.done@ == done
            &&& Round::starts(round.batch, (round, ask))
        } else {
            self.finishes(codes, turn)
        }
    }

    /// That the logits of the first tokens are suppressed next.
    pub open spec fn readies(self, ready: BatchReady, turn: BatchTurn) -> bool {
        &&& turn matches BatchTurn::Ask(next, Request::Suppress(logits))
        &&& next == (BatchSynthesis { stage: next.stage, ..self })
        &&& next.stage matches BatchStage::First { ready: r, zero }
        &&& r == ready
        &&& grid(zero) == zero_input(
            self.compute_dtype,
            device_location(self.device),
            ready.width,
        )
        &&& exists|all: Tensor| #[trigger]
            is_below(ready.logits@, all) && are_logits(grid(all), grid(logits))
    }

    /// What the first tokens lead to.
    pub open spec fn opens(
        self,
        ready: BatchReady,
        zero: Tensor,
        logits: Tensor,
        turn: BatchTurn,
    ) -> bool {
        exists|batch: Batch|
            {
                &&& batch.ends@ == self.ends@
                &&& batch.offset == ready.offset
                &&& batch.index == 0
                &&& batch.pad == ready.pad
                &&& batch.zero == zero
                &&& batch.last_hiddens == ready.last_hiddens
                &&& batch.trailings == ready.trailings
                &&& batch.lens == ready.lens
                &&& batch.done@ == Seq::new(ready.last_hiddens@.len(), |i: int| false)
                &&& batch.tokens@.len() == ready.last_hiddens@.len()
                &&& are_choices(grid(logits), batch.tokens@, batch.ids@)
                &&& #[trigger] self.proceeds(batch, all_values(self.codes@), turn)
            }
    }

    /// What the next tokens lead to: the frames are kept, and the sequences go on.
    pub open spec fn chooses(self, p: Played, logits: Tensor, turn: BatchTurn) -> bool {
        exists|batch: Batch, rows: Seq<Vec<u32>>|
            {
                &&& batch == (Batch {
                    tokens: batch.tokens,
                    ids: batch.ids,
                    last_hiddens: batch.last_hiddens,
                    ..p.batch
                })
                &&& batch.tokens@.len() == p.batch.tokens@.len()
                &&& batch.last_hiddens@.len() == p.batch.last_hiddens@.len()
                &&& are_choices(grid(logits), batch.tokens@, batch.ids@)
                &&& forall|i: int|
                    0 <= i < batch.last_hiddens@.len() ==> grid(#[trigger] batch.last_hiddens@[i])
                        == grid(p.hidden).narrow(0, i as usize, 1)
                &&& #[trigger] transferred(p.frames@, rows)
                &&& #[trigger] self.proceeds(
                    batch,
                    with_frames(all_values(self.codes@), p.active@, values(rows)),
                    turn,
                )
            }
    }

    /// That the waveform of a sequence is read as audio next. Where several were
    /// decoded in one pass, what padding gave is left out.
    pub open spec fn reads(
        self,
        order: Vec<usize>,
        waveform: Tensor,
        k: int,
        results: Seq<AudioBuffer>,
        turn: BatchTurn,
    ) -> bool {
        &&& turn matches BatchTurn::Ask(next, Request::ToAudio(t, rate))
        &&& rate == SAMPLE_RATE
        &&& next == (BatchSynthesis { stage: next.stage, ..self })
        &&& next.stage matches BatchStage::Reading { order: o, waveform: w, next: j, results: rs }
        &&& o == order
        &&& w == waveform
        &&& j == k
        &&& rs@ == results
        &&& if order@.len() == 1 {
            t == waveform
        } else {
            let wave = wave_of(grid(waveform), k as usize);
            let frames = self.codes@[order@[k] as int]@.len() as int;
            &&& grid(waveform).has_range(0, k as usize, 1)
            &&& grid(t) == wave.narrow(0, 0, kept_samples(frames, wave.dims[0] as int) as usize)
        }
    }

    /// What a reply leads to.
    pub open spec fn steps(self, reply: Reply, turn: BatchTurn) -> bool {
        match (self.stage, reply) {
            (BatchStage::Single(s), _) => exists|t: SynthTurn| #[trigger]
                s.steps(reply, t) && match t {
                    SynthTurn::Ask(s, ask) => turn == BatchTurn::Ask(
                        BatchSynthesis { stage: BatchStage::Single(s), ..self },
                        ask,
                    ),
                    SynthTurn::Done { audio, .. } => turn matches BatchTurn::Done(all) && all@
                        == seq![audio],
                },
            (BatchStage::Prompts(p), _) => exists|t: PromptTurn| #[trigger]
                p.steps(reply, t) && match t {
                    PromptTurn::Ask(p, ask) => turn == BatchTurn::Ask(
                        BatchSynthesis { stage: BatchStage::Prompts(p), ..self },
                        ask,
                    ),
                    PromptTurn::Built { embeds, ids } => {
                        &&& turn matches BatchTurn::Ask(next, ask)
                        &&& next == (BatchSynthesis { stage: next.stage, ..self })
                        &&& next.stage matches BatchStage::Starting(b)
                        &&& BatchStart::starts(
                            embeds@,
                            ids,
                            greatest(self.limits@),
                            false,
                            self.device,
                            (b, ask),
                        )
                    },
                },
            (BatchStage::Starting(b), _) => exists|t: BatchStartTurn| #[trigger]
                b.steps(reply, t) && match t {
                    BatchStartTurn::Ask(b, ask) => turn == BatchTurn::Ask(
                        BatchSynthesis { stage: BatchStage::Starting(b), ..self },
                        ask,
                    ),
                    BatchStartTurn::Ready(ready) => self.readies(ready, turn),
                },
            (BatchStage::First { ready, zero }, Reply::Tensor(logits)) => {
                self.opens(ready, zero, logits, turn)
            },
            (BatchStage::Playing(r), _) => exists|t: RoundTurn| #[trigger]
                r.steps(reply, t) && match t {
                    RoundTurn::Ask(r, ask) => turn == BatchTurn::Ask(
                        BatchSynthesis { stage: BatchStage::Playing(r), ..self },
                        ask,
                    ),
                    RoundTurn::Played(p) => {
                        &&& turn matches BatchTurn::Ask(next, Request::Suppress(logits))
                        &&& next == (BatchSynthesis { stage: BatchStage::Choosing(p), ..self })
                        &&& are_logits(grid(p.logits), grid(logits))
                    },
                },
            (BatchStage::Choosing(p), Reply::Tensor(logits)) => self.chooses(p, logits, turn),
            (BatchStage::Decoding(order), Reply::Tensor(waveform)) => {
                exists|results: Seq<AudioBuffer>| #[trigger]
                    silent(self.codes@.len(), results) && self.reads(
                        order,
                        waveform,
                        0,
                        results,
                        turn,
                    )
            },
            (BatchStage::Reading { order, waveform, next, results }, Reply::Audio(audio)) => {
                let all = results@.update(order@[next as int] as int, audio);
                if next + 1 < order@.len() {
                    self.reads(order, waveform, next + 1, all, turn)
                } else {
                    turn matches BatchTurn::Done(r) && r@ == all
                }
            },
            _ => false,
        }
    }

    /// Decode the frames.
    fn finish(self) -> (r: Result<BatchTurn, TtsError>)
        requires
            self.compute_dtype != DType::Other,
            self.has_limits(),
        ensures
            r matches Ok(turn) ==> self.finishes(all_values(self.codes@), turn),
            r matches Ok(BatchTurn::Ask(next, _)) ==> next.wf(),
            r matches Err(e) ==> e.is_computing() || e is BadFrame,
            decodes_on_cpu(all_values(self.codes@), device_location(self.device)) ==> r is Ok,
    {
        let order = non_empty(&self.codes);
        let ghost codes = all_values(self.codes@);
        proof {
            lemma_actives(empties(codes));
            assert forall|k: int| 0 <= k < order@.len() implies #[trigger] order@[k]
                < self.codes@.len() by {
                assert(indices(order@)[k] == order@[k]);
            }
            assert(indices(order@).len() == order@.len());
        }
        if order.len() == 0 {
            return Ok(BatchTurn::Done(silence(self.codes.len())));
        }
        let decoded = if order.len() == 1 {
            proof {
                assert(indices(order@)[0] == order@[0]);
            }
            frames_to_tensor(&self.codes[order[0]], &self.device)
        } else {
            let frames = longest_codes(&self.codes, &order);
            proof {
                let by_order = Seq::new(
                    actives(empties(codes)).len(),
                    |k: int| codes[actives(empties(codes))[k]],
                );
                assert(by_order =~= chosen(codes, order@)) by {
                    assert forall|k: int| 0 <= k < order@.len() implies by_order[k] == chosen(
                        codes,
                        order@,
                    )[k] by {
                        assert(indices(order@)[k] == order@[k]);
                    }
                }
            }
            batch_tensor(&self.codes, &order, frames, &self.device)
        };
        match decoded {
            Ok(t) => {
                let next = BatchSynthesis { stage: BatchStage::Decoding(order), ..self };
                Ok(BatchTurn::Ask(next, Request::Decode(t)))
            },
            Err(e) => Err(e),
        }
    }

    /// Go on with the next tokens.
    fn proceed(self, batch: Batch) -> (r: Result<BatchTurn, TtsError>)
        requires
            self.compute_dtype != DType::Other,
            batch.wf(),
            batch.ends@ == self.ends@,
            batch.tokens@.len() == self.codes@.len(),
            at_most(all_values(self.codes@), batch.index as int),
            self.has_limits(),
        ensures
            r matches Ok(turn) ==> self.proceeds(batch, all_values(self.codes@), turn),
            r matches Ok(BatchTurn::Ask(next, _)) ==> next.wf(),
            r matches Err(e) ==> e.is_computing() || e is BadFrame,
            decodes_on_cpu(all_values(self.codes@), device_location(self.device)) ==> r is Ok,
    {
        let mut next = batch;
        let ghost done0 = batch.done@;
        mark_ended(
            &mut next.done,
            &next.ids,
            &next.ends,
            next.index,
            &self.limits,
        );
        let active = active_of(&next.done);
        proof {
            assert(indices(active@).len() == active@.len());
        }
        if active.len() > 0 {
            assert(next.marked());
            proof {
                lemma_actives(next.done@);
                let i = actives(next.done@)[0];
                assert(!next.done@[i]);
                lemma_greatest(self.limits@, i);
            }
            let (round, ask) = Round::start(next);
            let stage = BatchStage::Playing(round);
            Ok(BatchTurn::Ask(BatchSynthesis { stage, ..self }, ask))
        } else {
            self.finish()
        }
    }

    /// Take up the logits of the first tokens.
    fn ready_up(self, ready: BatchReady) -> (r: Result<BatchTurn, TtsError>)
        requires
            self.compute_dtype != DType::Other,
            self.codes@.len() > 0,
            ready.last_hiddens@.len() == self.codes@.len(),
            ready.trailings@.len() == self.codes@.len(),
            ready.lens@.len() == self.codes@.len(),
            at_most(all_values(self.codes@), 0),
            self.has_limits(),
        ensures
            r matches Ok(turn) ==> self.readies(ready, turn) && (turn matches BatchTurn::Ask(next, _)
                && next.wf()),
            r matches Err(e) ==> e.is_computing(),
            readies_on_cpu(ready.logits@, ready.width) && device_location(self.device) is Cpu
                ==> r is Ok,
    {
        let all = match concat(&ready.logits, 0) {
            Ok(t) => t,
            Err(e) => {
                return Err(e);
            },
        };
        assert(is_below(ready.logits@, all));
        let logits = match to_logits(&all) {
            Ok(t) => t,
            Err(e) => {
                return Err(e);
            },
        };
        let width = ready.width;
        let shape: Vec<usize> = vec![1, 1, width];
        assert(shape@ =~= seq![1usize, 1, width]);
        if !is_countable(&shape) {
            return Err(TtsError::Overflow);
        }
        match zeros(&shape, self.compute_dtype, &self.device) {
            Ok(zero) => {
                let stage = BatchStage::First { ready, zero };
                Ok(BatchTurn::Ask(BatchSynthesis { stage, ..self }, Request::Suppress(logits)))
            },
            Err(e) => Err(TtsError::Tensor(e)),
        }
    }

    /// Take up the suppressed logits of the first tokens.
    fn open(self, ready: BatchReady, zero: Tensor, logits: Tensor) -> (r: Result<BatchTurn, TtsError>)
        requires
            self.compute_dtype != DType::Other,
            self.codes@.len() > 0,
            ready.last_hiddens@.len() == self.codes@.len(),
            ready.trailings@.len() == self.codes@.len(),
            ready.lens@.len() == self.codes@.len(),
            at_most(all_values(self.codes@), 0),
            self.has_limits(),
        ensures
            r matches Ok(turn) ==> self.opens(ready, zero, logits, turn),
            r matches Ok(BatchTurn::Ask(next, _)) ==> next.wf(),
            r matches Err(e) ==> e.is_computing() || e is BadShape || e is BadBatch || e is BadFrame,
            chooses_on_cpu(grid(logits), self.codes@.len() as int) && decodes_on_cpu(
                all_values(self.codes@),
                device_location(self.device),
            ) ==> r is Ok,
    {
        let n = self.codes.len();
        let (tokens, ids) = match next_tokens(&logits, n) {
            Ok(both) => both,
            Err(e) => {
                return Err(e);
            },
        };
        let mut done: Vec<bool> = Vec::new();
        let mut i: usize = 0;
        while i < n
            invariant
                i <= n,
                done@ == Seq::new(i as nat, |j: int| false),
            decreases n - i,
        {
            done.push(false);
            assert(done@ =~= Seq::new((i + 1) as nat, |j: int| false));
            i = i + 1;
        }
        let batch = Batch {
            ends: copy_ends(&self.ends),
            offset: ready.offset,
            index: 0,
            pad: ready.pad,
            zero,
            tokens,
            ids,
            done,
            last_hiddens: ready.last_hiddens,
            trailings: ready.trailings,
            lens: ready.lens,
        };
        let ghost b = batch;
        match self.proceed(batch) {
            Ok(turn) => {
                assert(self.proceeds(b, all_values(self.codes@), turn));
                Ok(turn)
            },
            Err(e) => Err(e),
        }
    }

    /// Take up the suppressed logits of the next tokens.
    fn choose_next(self, p: Played, logits: Tensor) -> (r: Result<BatchTurn, TtsError>)
        requires
            self.compute_dtype != DType::Other,
            p.batch.wf(),
            p.batch.tokens@.len() == self.codes@.len(),
            p.batch.ends@ == self.ends@,
            indices(p.active@) == actives(p.batch.done@),
            p.frames@.len() == p.active@.len(),
            p.batch.index <= greatest(self.limits@),
            at_most(all_values(self.codes@), p.batch.index - 1),
            self.has_limits(),
            allows(self.limits@, p.batch.done@, p.batch.index as int),
        ensures
            r matches Ok(turn) ==> self.chooses(p, logits, turn),
            r matches Ok(BatchTurn::Ask(next, _)) ==> next.wf(),
            r matches Err(e) ==> e.is_computing() || e is BadShape || e is BadBatch || e is BadFrame,
            self.chooses_next_on_cpu(p, logits) ==> r is Ok,
    {
        let n = self.codes.len();
        let (tokens, ids) = match next_tokens(&logits, n) {
            Ok(both) => both,
            Err(e) => {
                return Err(e);
            },
        };
        let last_hiddens = match rows_of(&p.hidden, n) {
            Ok(v) => v,
            Err(e) => {
                return Err(e);
            },
        };
        let rows = match gpu_frames_to_frame_codes(&p.frames) {
            Ok(v) => v,
            Err(e) => {
                return Err(e);
            },
        };
        proof {
            lemma_in_order(p.batch.done@, p.active@);
        }
        let mut codes = self.codes;
        append_frames(&mut codes, &p.active, &rows);
        proof {
            lemma_one_more(
                all_values(self.codes@),
                p.active@,
                values(rows@),
                p.batch.index - 1,
            );
            lemma_stay_within(
                all_values(self.codes@),
                p.batch.done@,
                p.active@,
                values(rows@),
                self.limits@,
                p.batch.index - 1,
            );
            assert(all_values(codes@).len() == codes@.len());
            assert(all_values(self.codes@).len() == self.codes@.len());
        }
        let batch = Batch { tokens, ids, last_hiddens, ..p.batch };
        let ghost b = batch;
        let rest = BatchSynthesis { codes, stage: BatchStage::Decoding(Vec::new()), ..self };
        match rest.proceed(batch) {
            Ok(turn) => {
                proof {
                    assert(rest.proceeds(b, all_values(rest.codes@), turn));
                    assert(self.proceeds(
                        b,
                        with_frames(all_values(self.codes@), p.active@, values(rows@)),
                        turn,
                    ));
                    assert(transferred(p.frames@, rows@));
                }
                Ok(turn)
            },
            Err(e) => Err(e),
        }
    }

    /// Read the waveform of a sequence.
    fn read(self, order: Vec<usize>, waveform: Tensor, k: usize, results: Vec<AudioBuffer>) -> (r:
        Result<BatchTurn, TtsError>)
        requires
            self.compute_dtype != DType::Other,
            k < order@.len(),
            forall|j: int| 0 <= j < order@.len() ==> #[trigger] order@[j] < self.codes@.len(),
            results@.len() == self.codes@.len(),
            self.has_limits(),
        ensures
            r matches Ok(turn) ==> self.reads(order, waveform, k as int, results@, turn) && (
            turn matches BatchTurn::Ask(next, _) && next.wf()),
            r matches Err(e) ==> e.is_computing(),
            order@.len() == 1 || (grid(waveform).at_hand() && tensor_dtype(waveform)
                != DType::Other && grid(waveform).has_range(0, k, 1)) ==> r is Ok,
    {
        let t = if order.len() == 1 {
            copy(&waveform)
        } else {
            match trimmed(&waveform, k, self.codes[order[k]].len()) {
                Ok(t) => t,
                Err(e) => {
                    return Err(e);
                },
            }
        };
        let stage = BatchStage::Reading { order, waveform, next: k, results };
        Ok(BatchTurn::Ask(BatchSynthesis { stage, ..self }, Request::ToAudio(t, SAMPLE_RATE)))
    }

    /// Start with one text.
    pub fn single(
        s: Synthesis,
        compute_dtype: DType,
        device: Device,
    ) -> (r: BatchSynthesis)
        requires
            s.wf(),
            compute_dtype != DType::Other,
        ensures
            r.wf(),
            r == (BatchSynthesis {
                limits: r.limits,
                ends: r.ends,
                compute_dtype,
                device,
                codes: r.codes,
                stage: BatchStage::Single(s),
            }),
    {
        BatchSynthesis {
            limits: Vec::new(),
            ends: Vec::new(),
            compute_dtype,
            device,
            codes: Vec::new(),
            stage: BatchStage::Single(s),
        }
    }

    /// Start with the prompts of several texts.
    pub fn several(
        prompts: BatchPrefill,
        limits: Vec<usize>,
        ends: Vec<Option<u32>>,
        compute_dtype: DType,
        device: Device,
    ) -> (r: BatchSynthesis)
        requires
            prompts.wf(),
            limits@.len() == prompts.items@.len(),
            ends@.len() == prompts.items@.len(),
            compute_dtype != DType::Other,
        ensures
            r.wf(),
            r == (BatchSynthesis {
                limits,
                ends,
                compute_dtype,
                device,
                codes: r.codes,
                stage: BatchStage::Prompts(prompts),
            }),
            all_values(r.codes@) == Seq::new(
                prompts.items@.len(),
                |i: int| Seq::<Seq<u32>>::empty(),
            ),
    {
        let n = prompts.items.len();
        let mut codes: Vec<FrameCodes> = Vec::new();
        let mut i: usize = 0;
        while i < n
            invariant
                i <= n,
                codes@.len() == i,
                forall|j: int| 0 <= j < i ==> (#[trigger] codes@[j])@.len() == 0,
            decreases n - i,
        {
            codes.push(Vec::new());
            i = i + 1;
        }
        proof {
            assert forall|j: int| 0 <= j < n implies #[trigger] all_values(codes@)[j] == Seq::<
                Seq<u32>,
            >::empty() by {
                assert(values(codes@[j]@) =~= Seq::<Seq<u32>>::empty());
            }
            assert(all_values(codes@) =~= Seq::new(n as nat, |i: int| Seq::<Seq<u32>>::empty()));
        }
        BatchSynthesis {
            limits,
            ends,
            compute_dtype,
            device,
            codes,
            stage: BatchStage::Prompts(prompts),
        }
    }

    /// Take up a reply.
    pub fn step(self, reply: Reply) -> (r: Result<BatchTurn, TtsError>)
        requires
            self.wf(),
        ensures
            r matches Ok(turn) ==> self.steps(reply, turn),
            r matches Ok(BatchTurn::Ask(next, _)) ==> next.wf(),
            (r matches Err(e) && e is UnexpectedReply) <==> !self.awaits(reply),
            self.accepts(reply) ==> r is Ok,
    {
        match (self.stage, reply) {
            (BatchStage::Single(s), reply) => match s.step(reply) {
                Ok(SynthTurn::Ask(s, ask)) => {
                    let stage = BatchStage::Single(s);
                    Ok(BatchTurn::Ask(BatchSynthesis { stage, ..self }, ask))
                },
                Ok(SynthTurn::Done { audio, codes: _ }) => {
                    let all: Vec<AudioBuffer> = vec![audio];
                    assert(all@ =~= seq![audio]);
                    Ok(BatchTurn::Done(all))
                },
                Err(e) => Err(e),
            },
            (BatchStage::Prompts(p), reply) => match p.step(reply) {
                Ok(PromptTurn::Ask(p, ask)) => {
                    let stage = BatchStage::Prompts(p);
                    Ok(BatchTurn::Ask(BatchSynthesis { stage, ..self }, ask))
                },
                Ok(PromptTurn::Built { embeds, ids }) => {
                    let most = greatest_of(&self.limits);
                    match BatchStart::start(&embeds, ids, most, false, &self.device) {
                        Ok((b, ask)) => {
                            let stage = BatchStage::Starting(b);
                            Ok(BatchTurn::Ask(BatchSynthesis { stage, ..self }, ask))
                        },
                        Err(e) => Err(e),
                    }
                },
                Err(e) => Err(e),
            },
            (BatchStage::Starting(b), reply) => match b.step(reply) {
                Ok(BatchStartTurn::Ask(b, ask)) => {
                    let stage = BatchStage::Starting(b);
                    Ok(BatchTurn::Ask(BatchSynthesis { stage, ..self }, ask))
                },
                Ok(BatchStartTurn::Ready(ready)) => {
                    let rest = BatchSynthesis { stage: BatchStage::Decoding(Vec::new()), ..self };
                    rest.ready_up(ready)
                },
                Err(e) => Err(e),
            },
            (BatchStage::First { ready, zero }, Reply::Tensor(logits)) => {
                let rest = BatchSynthesis { stage: BatchStage::Decoding(Vec::new()), ..self };
                match rest.open(ready, zero, logits) {
                    Ok(turn) => {
                        proof {
                            lemma_opens(rest, self, ready, zero, logits, turn);
                        }
                        Ok(turn)
                    },
                    Err(e) => Err(e),
                }
            },
            (BatchStage::Playing(round), reply) => match round.step(reply) {
                Ok(RoundTurn::Ask(round, ask)) => {
                    let stage = BatchStage::Playing(round);
                    Ok(BatchTurn::Ask(BatchSynthesis { stage, ..self }, ask))
                },
                Ok(RoundTurn::Played(p)) => match to_logits(&p.logits) {
                    Ok(logits) => {
                        let stage = BatchStage::Choosing(p);
                        let next = BatchSynthesis { stage, ..self };
                        Ok(BatchTurn::Ask(next, Request::Suppress(logits)))
                    },
                    Err(e) => Err(e),
                },
                Err(e) => Err(e),
            },
            (BatchStage::Choosing(p), Reply::Tensor(logits)) => {
                let rest = BatchSynthesis { stage: BatchStage::Decoding(Vec::new()), ..self };
                match rest.choose_next(p, logits) {
                    Ok(turn) => {
                        proof {
                            lemma_chooses(rest, self, p, logits, turn);
                        }
                        Ok(turn)
                    },
                    Err(e) => Err(e),
                }
            },
            (BatchStage::Decoding(order), Reply::Tensor(waveform)) => {
                let results = silence(self.codes.len());
                let rest = BatchSynthesis { stage: BatchStage::Decoding(Vec::new()), ..self };
                rest.read(order, waveform, 0, results)
            },
            (BatchStage::Reading { order, waveform, next, results }, Reply::Audio(audio)) => {
                let mut all = results;
                all.set(order[next], audio);
                let count = order.len();
                if next + 1 < count {
                    let rest = BatchSynthesis { stage: BatchStage::Decoding(Vec::new()), ..self };
                    rest.read(order, waveform, next + 1, all)
                } else {
                    Ok(BatchTurn::Done(all))
                }
            },
            _ => Err(TtsError::UnexpectedReply),
        }
    }
}

/// What follows does not depend on the stage.
proof fn lemma_opens(
    a: BatchSynthesis,
    b: BatchSynthesis,
    ready: BatchReady,
    zero: Tensor,
    logits: Tensor,
    turn: BatchTurn,
)
    requires
        a == (BatchSynthesis { stage: a.stage, ..b }),
        a.opens(ready, zero, logits, turn),
    ensures
        b.opens(ready, zero, logits, turn),
{
    let batch = choose|batch: Batch|
        {
            &&& batch.ends@ == a.ends@
            &&& batch.offset == ready.offset
            &&& batch.index == 0
            &&& batch.pad == ready.pad
            &&& batch.zero == zero
            &&& batch.last_hiddens == ready.last_hiddens
            &&& batch.trailings == ready.trailings
            &&& batch.lens == ready.lens
            &&& batch.done@ == Seq::new(ready.last_hiddens@.len(), |i: int| false)
            &&& batch.tokens@.len() == ready.last_hiddens@.len()
            &&& are_choices(grid(logits), batch.tokens@, batch.ids@)
            &&& #[trigger] a.proceeds(batch, all_values(a.codes@), turn)
        };
    assert(b.proceeds(batch, all_values(b.codes@), turn));
}

/// What follows does not depend on the stage.
proof fn lemma_chooses(a: BatchSynthesis, b: BatchSynthesis, p: Played, logits: Tensor, turn: BatchTurn)
    requires
        a == (BatchSynthesis { stage: a.stage, ..b }),
        a.chooses(p, logits, turn),
    ensures
        b.chooses(p, logits, turn),
{
    let (batch, rows) = choose|batch: Batch, rows: Seq<Vec<u32>>|
        {
            &&& batch == (Batch {
                tokens: batch.tokens,
                ids: batch.ids,
                last_hiddens: batch.last_hiddens,
                ..p.batch
            })
            &&& batch.tokens@.len() == p.batch.tokens@.len()
            &&& batch.last_hiddens@.len() == p.batch.last_hiddens@.len()
            &&& are_choices(grid(logits), batch.tokens@, batch.ids@)
            &&& forall|i: int|
                0 <= i < batch.last_hiddens@.len() ==> grid(#[trigger] batch.last_hiddens@[i])
                    == grid(p.hidden).narrow(0, i as usize, 1)
            &&& #[trigger] transferred(p.frames@, rows)
            &&& #[trigger] a.proceeds(
                batch,
                with_frames(all_values(a.codes@), p.active@, values(rows)),
                turn,
            )
        };
    assert(b.proceeds(batch, with_frames(all_values(b.codes@), p.active@, values(rows)), turn));
}

} // verus!
