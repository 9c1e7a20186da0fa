//! One frame of several sequences in one pass.
use crate::error::TtsError;
use crate::generation::{
    are_acoustic, frame_from_tensor, fuses_on_cpu, is_frame_of, is_fused, step_input, text_for,
};
use crate::grid::{join_all, joinable, DType, Grid};
use crate::ops::{concat, has_room};
use crate::request::{Reply, Request};
use crate::tensor::{copy, grid, grids, tensor_cells, tensor_dtype, tensor_location};
use candle_core::Tensor;
use vstd::prelude::*;

verus! {

/// Several sequences that are generated side by side.
pub struct Batch {
    /// The token that ends each sequence, if one does.
    pub ends: Vec<Option<u32>>,
    /// Positions that the talker has seen.
    pub offset: usize,
    /// How many frames were made.
    pub index: usize,
    /// What stands for no text.
    pub pad: Tensor,
    /// What the talker is given for a sequence that has ended.
    pub zero: Tensor,
    /// The token of each sequence that was sampled last.
    pub tokens: Vec<Tensor>,
    /// The same as numbers.
    pub ids: Vec<u32>,
    /// Whether the sequence has ended.
    pub done: Vec<bool>,
    /// What the talker gave for its last position.
    pub last_hiddens: Vec<Tensor>,
    pub trailings: Vec<Tensor>,
    pub lens: Vec<usize>,
}

/// The sequences that have not ended, in order.
pub open spec fn actives(done: Seq<bool>) -> Seq<int>
    decreases done.len(),
{
    if done.len() == 0 {
        Seq::empty()
    } else if done.last() {
        actives(done.drop_last())
    } else {
        actives(done.drop_last()).push(done.len() - 1)
    }
}

/// The sequences that have not ended are in order, and they are those.
pub proof fn lemma_actives(done: Seq<bool>)
    ensures
        forall|k: int|
            0 <= k < actives(done).len() ==> 0 <= #[trigger] actives(done)[k] < done.len()
                && !done[actives(done)[k]],
        forall|j: int, k: int|
            0 <= j < k < actives(done).len() ==> #[trigger] actives(done)[j]
                < #[trigger] actives(done)[k],
        forall|i: int| 0 <= i < done.len() && !#[trigger] done[i] ==> actives(done).contains(i),
        actives(done).len() <= done.len(),
    decreases done.len(),
{
    if done.len() > 0 {
        let init = done.drop_last();
        lemma_actives(init);
        assert forall|i: int| 0 <= i < done.len() && !#[trigger] done[i] implies actives(
            done,
        ).contains(i) by {
            if i < init.len() {
                assert(!init[i]);
                let k = choose|k: int| 0 <= k < actives(init).len() && actives(init)[k] == i;
                assert(actives(done)[k] == i);
            } else {
                assert(actives(done)[actives(done).len() - 1] == i);
            }
        }
        assert forall|k: int| 0 <= k < actives(done).len() implies 0 <= #[trigger] actives(done)[k]
            < done.len() && !done[actives(done)[k]] by {
            if k < actives(init).len() {
                assert(actives(done)[k] == actives(init)[k]);
                assert(!init[actives(init)[k]]);
            }
        }
        assert forall|j: int, k: int| 0 <= j < k < actives(done).len() implies #[trigger] actives(
            done,
        )[j] < #[trigger] actives(done)[k] by {
            assert(actives(done)[j] == actives(init)[j]);
            if k < actives(init).len() {
                assert(actives(done)[k] == actives(init)[k]);
            }
        }
    }
}

/// Positions as numbers.
pub open spec fn indices(v: Seq<usize>) -> Seq<int> {
    v.map_values(|i: usize| i as int)
}

/// The sequences that have not ended.
pub fn active_of(done: &Vec<bool>) -> (r: Vec<usize>)
    ensures
        indices(r@) == actives(done@),
{
    let mut out: Vec<usize> = Vec::new();
    let mut i: usize = 0;
    assert(indices(out@) =~= actives(done@.take(0)));
    while i < done.len()
        invariant
            i <= done@.len(),
            indices(out@) == actives(done@.take(i as int)),
        decreases done@.len() - i,
    {
        let ghost before = out@;
        if !done[i] {
            out.push(i);
            assert(indices(out@) =~= indices(before).push(i as int));
        }
        assert(done@.take(i + 1).drop_last() =~= done@.take(i as int));
        assert(done@.take(i + 1).last() == done@[i as int]);
        i = i + 1;
    }
    assert(done@.take(done@.len() as int) =~= done@);
    out
}

/// Which sequences have ended when these tokens were sampled behind so many frames:
/// those that had, those whose token ends them, and those that have as many
/// frames as they may have.
pub open spec fn ended(
    done: Seq<bool>,
    ids: Seq<u32>,
    ends: Seq<Option<u32>>,
    frames: usize,
    limits: Seq<usize>,
) -> Seq<bool> {
    Seq::new(done.len(), |i: int| done[i] || ends[i] == Some(ids[i]) || frames >= limits[i])
}

/// That no frame of an active sequence holds the token that ends it as its semantic
/// code.
pub open spec fn without_ends(
    ends: Seq<Option<u32>>,
    active: Seq<usize>,
    frames: Seq<Tensor>,
) -> bool {
    forall|k: int|
        0 <= k < frames.len() ==> (ends[active[k] as int] matches Some(eos) ==> tensor_cells(
            #[trigger] frames[k],
        ).len() > 0 && tensor_cells(frames[k])[0] != eos)
}

/// The same end tokens once more.
pub fn copy_ends(ends: &Vec<Option<u32>>) -> (r: Vec<Option<u32>>)
    ensures
        r@ == ends@,
{
    let mut out: Vec<Option<u32>> = Vec::new();
    let mut i: usize = 0;
    while i < ends.len()
        invariant
            i <= ends@.len(),
            out@ == ends@.take(i as int),
        decreases ends@.len() - i,
    {
        out.push(ends[i]);
        assert(ends@.take(i + 1) =~= ends@.take(i as int).push(ends@[i as int]));
        i = i + 1;
    }
    assert(ends@.take(ends@.len() as int) =~= ends@);
    out
}

/// Mark the sequences that have ended.
pub fn mark_ended(
    done: &mut Vec<bool>,
    ids: &Vec<u32>,
    ends: &Vec<Option<u32>>,
    frames: usize,
    limits: &Vec<usize>,
)
    requires
        old(done)@.len() == ids@.len(),
        old(done)@.len() == ends@.len(),
        old(done)@.len() == limits@.len(),
    ensures
        final(done)@ == ended(old(done)@, ids@, ends@, frames, limits@),
{
    let ghost before = done@;
    let n = done.len();
    let mut i: usize = 0;
    while i < n
        invariant
            i <= n,
            n == done@.len(),
            n == ids@.len(),
            n == ends@.len(),
            n == limits@.len(),
            n == before.len(),
            forall|j: int|
                0 <= j < i ==> #[trigger] done@[j] == ended(before, ids@, ends@, frames, limits@)[j],
            forall|j: int| i <= j < n ==> #[trigger] done@[j] == before[j],
        decreases n - i,
    {
        let is_eos = match ends[i] {
            Some(eos_id) => ids[i] == eos_id,
            None => false,
        };
        if is_eos || frames >= limits[i] {
            done.set(i, true);
        }
        i = i + 1;
    }
    assert(done@ =~= ended(before, ids@, ends@, frames, limits@));
}

/// Copies of the tensors at these positions.
pub fn gather(ts: &Vec<Tensor>, at: &Vec<usize>) -> (r: Vec<Tensor>)
    requires
        forall|k: int| 0 <= k < at@.len() ==> #[trigger] at@[k] < ts@.len(),
    ensures
        r@ == picked(ts@, at@),
{
    let mut out: Vec<Tensor> = Vec::new();
    let mut k: usize = 0;
    while k < at.len()
        invariant
            k <= at@.len(),
            forall|j: int| 0 <= j < at@.len() ==> #[trigger] at@[j] < ts@.len(),
            out@.len() == k,
            forall|j: int| 0 <= j < k ==> #[trigger] out@[j] == ts@[at@[j] as int],
        decreases at@.len() - k,
    {
        out.push(copy(&ts[at[k]]));
        k = k + 1;
    }
    assert(out@ =~= picked(ts@, at@));
    out
}

/// The tensors at these positions.
pub open spec fn picked(ts: Seq<Tensor>, at: Seq<usize>) -> Seq<Tensor> {
    Seq::new(at.len(), |k: int| ts[at[k] as int])
}

/// That these are the frames of the active sequences.
pub open spec fn are_round_frames(
    tokens: Seq<Tensor>,
    active: Seq<usize>,
    acoustic: Seq<Tensor>,
    frames: Seq<Tensor>,
) -> bool {
    &&& frames.len() == active.len()
    &&& forall|k: int|
        0 <= k < active.len() ==> tensor_cells(tokens[active[k] as int]).len() == 1 && is_frame_of(
            tensor_cells(tokens[active[k] as int])[0],
            grid(acoustic[k]),
            grid(#[trigger] frames[k]),
        )
}

/// Whether the frames of the active sequences can be made on the CPU.
pub open spec fn framed_on_cpu(tokens: Seq<Tensor>, active: Seq<usize>, acoustic: Seq<Tensor>) -> bool {
    forall|k: int|
        0 <= k < active.len() ==> {
            let token = tokens[active[k] as int];
            &&& are_acoustic(grid(#[trigger] acoustic[k]))
            &&& grid(token).at_hand()
            &&& tensor_dtype(token) == DType::U32
            &&& tensor_cells(token).len() == 1
        }
}

/// The frames of the active sequences.
pub fn round_frames(tokens: &Vec<Tensor>, active: &Vec<usize>, acoustic: &Vec<Tensor>) -> (r: Result<
    Vec<Tensor>,
    TtsError,
>)
    requires
        forall|k: int| 0 <= k < active@.len() ==> #[trigger] active@[k] < tokens@.len(),
        active@.len() <= acoustic@.len(),
    ensures
        r matches Ok(frames) ==> are_round_frames(tokens@, active@, acoustic@, frames@),
        r matches Err(e) ==> e.is_computing() || e is BadShape,
        framed_on_cpu(tokens@, active@, acoustic@) ==> r is Ok,
{
    let mut frames: Vec<Tensor> = Vec::new();
    let mut k: usize = 0;
    while k < active.len()
        invariant
            k <= active@.len(),
            active@.len() <= acoustic@.len(),
            forall|j: int| 0 <= j < active@.len() ==> #[trigger] active@[j] < tokens@.len(),
            frames@.len() == k,
            forall|j: int|
                0 <= j < k ==> tensor_cells(tokens@[active@[j] as int]).len() == 1 && is_frame_of(
                    tensor_cells(tokens@[active@[j] as int])[0],
                    grid(acoustic@[j]),
                    grid(#[trigger] frames@[j]),
                ),
        decreases active@.len() - k,
    {
        match frame_from_tensor(&tokens[active[k]], &acoustic[k]) {
            Ok(f) => {
                frames.push(f);
            },
            Err(e) => {
                return Err(e);
            },
        }
        k = k + 1;
    }
    Ok(frames)
}

impl Batch {
    /// Everything is there for each sequence, and there is one. The tokens and
    /// their numbers agree.
    pub open spec fn wf(self) -> bool {
        let n = self.tokens@.len();
        &&& n > 0
        &&& self.ids@.len() == n
        &&& self.ends@.len() == n
        &&& self.done@.len() == n
        &&& self.last_hiddens@.len() == n
        &&& self.trailings@.len() == n
        &&& self.lens@.len() == n
        &&& forall|i: int|
            0 <= i < n ==> tensor_cells(#[trigger] self.tokens@[i]).len() > 0 && tensor_cells(
                self.tokens@[i],
            )[0] == self.ids@[i]
    }

    /// Whether each sequence whose token ends it has ended.
    pub open spec fn marked(self) -> bool {
        forall|i: int|
            0 <= i < self.ids@.len() && self.ends@[i] == Some(self.ids@[i])
                ==> #[trigger] self.done@[i]
    }

    /// The text that goes with the next frame of a sequence.
    pub open spec fn text(self, i: int) -> Grid {
        text_for(grid(self.trailings@[i]), self.lens@[i] as int, grid(self.pad), self.index)
    }

    /// That these are the inputs of the talker: frames fused with text for the
    /// active sequences, zeros for the others.
    pub open spec fn are_inputs(
        self,
        active: Seq<usize>,
        embeds: Seq<Tensor>,
        sums: Seq<Tensor>,
        inputs: Seq<Tensor>,
    ) -> bool {
        &&& inputs.len() == self.tokens@.len()
        &&& forall|k: int|
            0 <= k < active.len() ==> is_fused(
                grid(embeds[k]),
                grid(#[trigger] sums[k]),
                self.text(active[k] as int),
                grid(inputs[active[k] as int]),
            )
        &&& forall|i: int|
            0 <= i < inputs.len() && self.done@[i] ==> #[trigger] inputs[i] == self.zero
    }

    /// Whether the frames of the active sequences can be fused with text on the CPU.
    pub open spec fn fused_on_cpu(
        self,
        active: Seq<usize>,
        embeds: Seq<Tensor>,
        sums: Seq<Tensor>,
    ) -> bool {
        forall|k: int|
            0 <= k < active.len() ==> fuses_on_cpu(
                grid(embeds[k]),
                grid(#[trigger] sums[k]),
                grid(self.trailings@[active[k] as int]),
                self.lens@[active[k] as int] as int,
                grid(self.pad),
                self.index,
            )
    }

    /// The inputs of the talker.
    pub fn inputs(&self, active: &Vec<usize>, embeds: &Vec<Tensor>, sums: &Vec<Tensor>) -> (r: Result<
        Vec<Tensor>,
        TtsError,
    >)
        requires
            self.wf(),
            indices(active@) == actives(self.done@),
            embeds@.len() == active@.len(),
            sums@.len() == active@.len(),
        ensures
            r matches Ok(inputs) ==> self.are_inputs(active@, embeds@, sums@, inputs@),
            r matches Err(e) ==> e.is_computing() || e is NotFloat,
            self.fused_on_cpu(active@, embeds@, sums@) ==> r is Ok,
    {
        proof {
            lemma_actives(self.done@);
            assert forall|k: int| 0 <= k < active@.len() implies #[trigger] active@[k]
                < self.done@.len() && !self.done@[active@[k] as int] by {
                assert(indices(active@)[k] == active@[k]);
            }
            assert forall|j: int, k: int| 0 <= j < k < active@.len() implies #[trigger] active@[j]
                < #[trigger] active@[k] by {
                assert(indices(active@)[j] == active@[j]);
                assert(indices(active@)[k] == active@[k]);
            }
        }
        let n = self.tokens.len();
        let mut inputs: Vec<Tensor> = Vec::new();
        let mut i: usize = 0;
        while i < n
            invariant
                i <= n,
                inputs@.len() == i,
                forall|j: int| 0 <= j < i ==> #[trigger] inputs@[j] == self.zero,
            decreases n - i,
        {
            inputs.push(copy(&self.zero));
            i = i + 1;
        }
        let mut k: usize = 0;
        while k < active.len()
            invariant
                k <= active@.len(),
                self.wf(),
                n == self.tokens@.len(),
                inputs@.len() == n,
                embeds@.len() == active@.len(),
                sums@.len() == active@.len(),
                forall|j: int|
                    0 <= j < active@.len() ==> #[trigger] active@[j] < n && !self.done@[active@[j] as int],
                forall|j: int, l: int|
                    0 <= j < l < active@.len() ==> #[trigger] active@[j] < #[trigger] active@[l],
                forall|j: int|
                    0 <= j < k ==> is_fused(
                        grid(embeds@[j]),
                        grid(#[trigger] sums@[j]),
                        self.text(active@[j] as int),
                        grid(inputs@[active@[j] as int]),
                    ),
                forall|j: int|
                    0 <= j < n && self.done@[j] ==> #[trigger] inputs@[j] == self.zero,
            decreases active@.len() - k,
        {
            let a = active[k];
            let ghost before = inputs@;
            match step_input(
                &embeds[k],
                &sums[k],
                &self.trailings[a],
                self.lens[a],
                &self.pad,
                self.index,
            ) {
                Ok(t) => {
                    inputs.set(a, t);
                },
                Err(e) => {
                    return Err(e);
                },
            }
            proof {
                assert forall|j: int| 0 <= j < k + 1 implies is_fused(
                    grid(embeds@[j]),
                    grid(#[trigger] sums@[j]),
                    self.text(active@[j] as int),
                    grid(inputs@[active@[j] as int]),
                ) by {
                    if j < k {
                        assert(active@[j] < active@[k as int]);
                        assert(inputs@[active@[j] as int] == before[active@[j] as int]);
                    }
                }
            }
            k = k + 1;
        }
        Ok(inputs)
    }
}

/// What a round waits for.
pub enum RoundPhase {
    /// The embeddings of the tokens.
    Embedding { embeds: Vec<Tensor> },
    /// The acoustic codes.
    Predicting { embeds: Vec<Tensor> },
    /// The embeddings of the acoustic codes.
    Summing { embeds: Vec<Tensor>, acoustic: Vec<Tensor>, sums: Vec<Tensor> },
    /// What the layers make of the frames.
    Layers { frames: Vec<Tensor> },
    /// The same, normalized.
    Norm { frames: Vec<Tensor> },
    /// The logits.
    Head { frames: Vec<Tensor>, hidden: Tensor },
}

/// Makes one frame of each sequence that has not ended.
pub struct Round {
    pub batch: Batch,
    pub active: Vec<usize>,
    pub phase: RoundPhase,
}

/// What came of a round.
pub struct Played {
    pub batch: Batch,
    pub active: Vec<usize>,
    /// The frames of the active sequences.
    pub frames: Vec<Tensor>,
    /// What the talker gave for all sequences.
    pub hidden: Tensor,
    /// The logits of the next tokens.
    pub logits: Tensor,
}

/// What is wanted next.
pub enum RoundTurn {
    /// A reply of the model.
    Ask(Round, Request),
    /// Nothing: the frames are made.
    Played(Played),
}

/// That `t` holds these tensors one below the other.
pub open spec fn is_below(parts: Seq<Tensor>, t: Tensor) -> bool {
    joinable(grids(parts), 0) && grid(t) == join_all(grids(parts), 0)
}

/// Whether tensors can be put one below the other on the CPU.
pub open spec fn below_on_cpu(parts: Seq<Tensor>) -> bool {
    &&& joinable(grids(parts), 0)
    &&& has_room(grids(parts), 0)
    &&& tensor_location(parts[0]) is Cpu
    &&& tensor_dtype(parts[0]) != DType::Other
}

impl Round {
    /// Whether there is a frame for each active sequence, and none holds the token
    /// that ends it.
    pub open spec fn has_frames(self, frames: Seq<Tensor>) -> bool {
        &&& frames.len() == self.active@.len()
        &&& without_ends(self.batch.ends@, self.active@, frames)
    }

    /// Some sequence has not ended, and what was gathered goes in their order.
    pub open spec fn wf(self) -> bool {
        let n = self.active@.len();
        &&& self.batch.wf()
        &&& self.batch.marked()
        &&& indices(self.active@) == actives(self.batch.done@)
        &&& n > 0
        &&& match self.phase {
            RoundPhase::Embedding { embeds } => embeds@.len() < n,
            RoundPhase::Predicting { embeds } => embeds@.len() == n,
            RoundPhase::Summing { embeds, acoustic, sums } => {
                &&& embeds@.len() == n
                &&& acoustic@.len() >= n
                &&& sums@.len() < n
            },
            RoundPhase::Layers { frames } => self.has_frames(frames@),
            RoundPhase::Norm { frames } => self.has_frames(frames@),
            RoundPhase::Head { frames, .. } => self.has_frames(frames@),
        }
    }

    /// Whether this is a reply to what was asked.
    pub open spec fn awaits(self, reply: Reply) -> bool {
        match self.phase {
            RoundPhase::Predicting { .. } => reply is Tensors,
            _ => reply is Tensor,
        }
    }

    /// Whether a reply can be taken up on the CPU.
    pub open spec fn accepts(self, reply: Reply) -> bool {
        &&& self.awaits(reply)
        &&& match (self.phase, reply) {
            (RoundPhase::Embedding { embeds }, Reply::Tensor(e)) => embeds@.len() + 1
                == self.active@.len() ==> {
                &&& below_on_cpu(picked(self.batch.last_hiddens@, self.active@))
                &&& below_on_cpu(embeds@.push(e))
            },
            (RoundPhase::Predicting { .. }, Reply::Tensors(acoustic)) => acoustic@.len()
                >= self.active@.len(),
            (RoundPhase::Summing { embeds, acoustic, sums }, Reply::Tensor(s)) => sums@.len() + 1
                == self.active@.len() ==> {
                &&& framed_on_cpu(self.batch.tokens@, self.active@, acoustic@)
                &&& self.batch.fused_on_cpu(self.active@, embeds@, sums@.push(s))
                &&& forall|inputs: Seq<Tensor>| #[trigger]
                    self.batch.are_inputs(self.active@, embeds@, sums@.push(s), inputs)
                        ==> below_on_cpu(inputs)
            },
            (RoundPhase::Head { .. }, _) => self.batch.offset < usize::MAX && self.batch.index
                < usize::MAX,
            _ => true,
        }
    }

    /// That a round starts so.
    pub open spec fn starts(batch: Batch, r: (Round, Request)) -> bool {
        &&& r.0.batch == batch
        &&& indices(r.0.active@) == actives(batch.done@)
        &&& r.0.phase matches RoundPhase::Embedding { embeds }
        &&& embeds@.len() == 0
        &&& r.1 == Request::EmbedToken(batch.tokens@[actives(batch.done@)[0]])
    }

    /// What the embedding of a token leads to.
    pub open spec fn embedded(self, embeds: Seq<Tensor>, turn: RoundTurn) -> bool {
        &&& turn matches RoundTurn::Ask(next, ask)
        &&& next == (Round { phase: next.phase, ..self })
        &&& if embeds.len() < self.active@.len() {
            &&& next.phase matches RoundPhase::Embedding { embeds: es }
            &&& es@ == embeds
            &&& ask == Request::EmbedToken(
                self.batch.tokens@[self.active@[embeds.len() as int] as int],
            )
        } else {
            &&& next.phase matches RoundPhase::Predicting { embeds: es }
            &&& es@ == embeds
            &&& ask matches Request::BatchAcoustic { hiddens, embeds: below }
            &&& is_below(picked(self.batch.last_hiddens@, self.active@), hiddens)
            &&& is_below(embeds, below)
        }
    }

    /// What the embedding of acoustic codes leads to.
    pub open spec fn summed(
        self,
        embeds: Vec<Tensor>,
        acoustic: Vec<Tensor>,
        sums: Seq<Tensor>,
        turn: RoundTurn,
    ) -> bool {
        &&& turn matches RoundTurn::Ask(next, ask)
        &&& next == (Round { phase: next.phase, ..self })
        &&& if sums.len() < self.active@.len() {
            &&& next.phase matches RoundPhase::Summing { embeds: es, acoustic: ac, sums: ss }
            &&& es == embeds
            &&& ac == acoustic
            &&& ss@ == sums
            &&& ask == Request::AcousticSum(acoustic@[sums.len() as int])
        } else {
            &&& next.phase matches RoundPhase::Layers { frames }
            &&& are_round_frames(self.batch.tokens@, self.active@, acoustic@, frames@)
            &&& ask matches Request::Forward { input, mask, offset }
            &&& mask is None
            &&& offset == self.batch.offset
            &&& exists|inputs: Seq<Tensor>| #[trigger]
                self.batch.are_inputs(self.active@, embeds@, sums, inputs) && is_below(inputs, input)
        }
    }

    /// What a reply leads to.
    pub open spec fn steps(self, reply: Reply, turn: RoundTurn) -> bool {
        match (self.phase, reply) {
            (RoundPhase::Embedding { embeds }, Reply::Tensor(e)) => {
                self.embedded(embeds@.push(e), turn)
            },
            (RoundPhase::Predicting { embeds }, Reply::Tensors(acoustic)) => {
                self.summed(embeds, acoustic, Seq::empty(), turn)
            },
            (RoundPhase::Summing { embeds, acoustic, sums }, Reply::Tensor(s)) => {
                self.summed(embeds, acoustic, sums@.push(s), turn)
            },
            (RoundPhase::Layers { frames }, Reply::Tensor(hidden)) => {
                turn == RoundTurn::Ask(
                    Round { phase: RoundPhase::Norm { frames }, ..self },
                    Request::Norm(hidden),
                )
            },
            (RoundPhase::Norm { frames }, Reply::Tensor(hidden)) => {
                turn == RoundTurn::Ask(
                    Round { phase: RoundPhase::Head { frames, hidden }, ..self },
                    Request::CodecHead(hidden),
                )
            },
            (RoundPhase::Head { frames, hidden }, Reply::Tensor(logits)) => {
                &&& turn matches RoundTurn::Played(p)
                &&& self.batch.offset < usize::MAX
                &&& self.batch.index < usize::MAX
                &&& p == (Played {
                    batch: Batch {
                        offset: (self.batch.offset + 1) as usize,
                        index: (self.batch.index + 1) as usize,
                        ..self.batch
                    },
                    active: self.active,
                    frames,
                    hidden,
                    logits,
                })
            },
            _ => false,
        }
    }

    /// Start a round of the sequences that have not ended.
    pub fn start(batch: Batch) -> (r: (Round, Request))
        requires
            batch.wf(),
            batch.marked(),
            actives(batch.done@).len() > 0,
        ensures
            r.0.wf(),
            Round::starts(batch, r),
    {
        let active = active_of(&batch.done);
        proof {
            lemma_actives(batch.done@);
            assert(indices(active@)[0] == active@[0]);
        }
        let ask = Request::EmbedToken(copy(&batch.tokens[active[0]]));
        (Round { batch, active, phase: RoundPhase::Embedding { embeds: Vec::new() } }, ask)
    }

    /// The active sequences are sequences.
    proof fn lemma_in_range(self)
        requires
            self.batch.wf(),
            indices(self.active@) == actives(self.batch.done@),
        ensures
            forall|k: int|
                0 <= k < self.active@.len() ==> #[trigger] self.active@[k]
                    < self.batch.tokens@.len(),
    {
        lemma_actives(self.batch.done@);
        assert forall|k: int| 0 <= k < self.active@.len() implies #[trigger] self.active@[k]
            < self.batch.tokens@.len() by {
            assert(indices(self.active@)[k] == self.active@[k]);
        }
    }

    /// Take up the embedding of a token.
    fn embed(self, embeds: Vec<Tensor>) -> (r: Result<RoundTurn, TtsError>)
        requires
            self.batch.wf(),
            self.batch.marked(),
            indices(self.active@) == actives(self.batch.done@),
            0 < embeds@.len() <= self.active@.len(),
        ensures
            r matches Ok(turn) ==> self.embedded(embeds@, turn) && (turn matches RoundTurn::Ask(
                next,
                _,
            ) && next.wf()),
            r matches Err(e) ==> e.is_computing(),
            embeds@.len() < self.active@.len() || (below_on_cpu(
                picked(self.batch.last_hiddens@, self.active@),
            ) && below_on_cpu(embeds@)) ==> r is Ok,
    {
        proof {
            self.lemma_in_range();
        }
        if embeds.len() < self.active.len() {
            let ask = Request::EmbedToken(copy(&self.batch.tokens[self.active[embeds.len()]]));
            let phase = RoundPhase::Embedding { embeds };
            return Ok(RoundTurn::Ask(Round { phase, ..self }, ask));
        }
        let last = gather(&self.batch.last_hiddens, &self.active);
        let hiddens = match concat(&last, 0) {
            Ok(t) => t,
            Err(e) => {
                return Err(e);
            },
        };
        match concat(&embeds, 0) {
            Ok(below) => {
                let phase = RoundPhase::Predicting { embeds };
                let ask = Request::BatchAcoustic { hiddens, embeds: below };
                Ok(RoundTurn::Ask(Round { phase, ..self }, ask))
            },
            Err(e) => Err(e),
        }
    }

    /// Take up the embedding of acoustic codes.
    fn sum_up(self, embeds: Vec<Tensor>, acoustic: Vec<Tensor>, sums: Vec<Tensor>) -> (r: Result<
        RoundTurn,
        TtsError,
    >)
        requires
            self.batch.wf(),
            self.batch.marked(),
            indices(self.active@) == actives(self.batch.done@),
            self.active@.len() > 0,
            embeds@.len() == self.active@.len(),
            acoustic@.len() >= self.active@.len(),
            sums@.len() <= self.active@.len(),
        ensures
            r matches Ok(turn) ==> self.summed(embeds, acoustic, sums@, turn) && (
            turn matches RoundTurn::Ask(next, _) && next.wf()),
            r matches Err(e) ==> e.is_computing() || e is BadShape || e is NotFloat,
            sums@.len() < self.active@.len() || (framed_on_cpu(
                self.batch.tokens@,
                self.active@,
                acoustic@,
            ) && self.batch.fused_on_cpu(self.active@, embeds@, sums@) && forall|inputs: Seq<Tensor>|
                #[trigger]
                self.batch.are_inputs(self.active@, embeds@, sums@, inputs) ==> below_on_cpu(inputs))
                ==> r is Ok,
    {
        proof {
            self.lemma_in_range();
        }
        if sums.len() < self.active.len() {
            let ask = Request::AcousticSum(copy(&acoustic[sums.len()]));
            let phase = RoundPhase::Summing { embeds, acoustic, sums };
            return Ok(RoundTurn::Ask(Round { phase, ..self }, ask));
        }
        let frames = match round_frames(&self.batch.tokens, &self.active, &acoustic) {
            Ok(f) => f,
            Err(e) => {
                return Err(e);
            },
        };
        proof {
            lemma_actives(self.batch.done@);
            assert forall|k: int| 0 <= k < frames@.len() implies (
            self.batch.ends@[self.active@[k] as int] matches Some(eos) ==> tensor_cells(
                #[trigger] frames@[k],
            ).len() > 0 && tensor_cells(frames@[k])[0] != eos) by {
                let a = self.active@[k] as int;
                assert(indices(self.active@)[k] == a);
                assert(!self.batch.done@[a]);
                assert(tensor_cells(self.batch.tokens@[a])[0] == self.batch.ids@[a]);
                assert(self.batch.ends@[a] != Some(self.batch.ids@[a]));
                assert(tensor_cells(frames@[k])[0] == self.batch.ids@[a]);
            }
        }
        let inputs = match self.batch.inputs(&self.active, &embeds, &sums) {
            Ok(v) => v,
            Err(e) => {
                return Err(e);
            },
        };
        assert(self.batch.are_inputs(self.active@, embeds@, sums@, inputs@));
        match concat(&inputs, 0) {
            Ok(input) => {
                let ask = Request::Forward { input, mask: None, offset: self.batch.offset };
                let phase = RoundPhase::Layers { frames };
                Ok(RoundTurn::Ask(Round { phase, ..self }, ask))
            },
            Err(e) => Err(e),
        }
    }

    /// Take up a reply.
    pub fn step(self, reply: Reply) -> (r: Result<RoundTurn, TtsError>)
        requires
            self.wf(),
        ensures
            r matches Ok(turn) ==> self.steps(reply, turn),
            r matches Ok(RoundTurn::Ask(next, _)) ==> next.wf() && next.batch == self.batch,
            r matches Ok(RoundTurn::Played(p)) ==> p.batch.wf() && p.frames@.len() == p.active@.len()
                && indices(p.active@) == actives(p.batch.done@) && without_ends(
                p.batch.ends@,
                p.active@,
                p.frames@,
            ),
            (r matches Err(e) && e is UnexpectedReply) <==> !self.awaits(reply),
            (r matches Err(e) && e is BadBatch) <==> self.phase is Predicting && (
            reply matches Reply::Tensors(acoustic) && acoustic@.len() < self.active@.len()),
            self.accepts(reply) ==> r is Ok,
    {
        match (self.phase, reply) {
            (RoundPhase::Embedding { embeds }, Reply::Tensor(e)) => {
                let mut all = embeds;
                all.push(e);
                let rest = Round {
                    phase: RoundPhase::Embedding { embeds: Vec::new() },
                    ..self
                };
                rest.embed(all)
            },
            (RoundPhase::Predicting { embeds }, Reply::Tensors(acoustic)) => {
                if acoustic.len() < self.active.len() {
                    return Err(TtsError::BadBatch);
                }
                let rest = Round {
                    phase: RoundPhase::Embedding { embeds: Vec::new() },
                    ..self
                };
                rest.sum_up(embeds, acoustic, Vec::new())
            },
            (RoundPhase::Summing { embeds, acoustic, sums }, Reply::Tensor(s)) => {
                let mut all = sums;
                all.push(s);
                let rest = Round {
                    phase: RoundPhase::Embedding { embeds: Vec::new() },
                    ..self
                };
                rest.sum_up(embeds, acoustic, all)
            },
            (RoundPhase::Layers { frames }, Reply::Tensor(hidden)) => {
                let phase = RoundPhase::Norm { frames };
                Ok(RoundTurn::Ask(Round { phase, ..self }, Request::Norm(hidden)))
            },
            (RoundPhase::Norm { frames }, Reply::Tensor(hidden)) => {
                let ask = Request::CodecHead(copy(&hidden));
                let phase = RoundPhase::Head { frames, hidden };
                Ok(RoundTurn::Ask(Round { phase, ..self }, ask))
            },
            (RoundPhase::Head { frames, hidden }, Reply::Tensor(logits)) => {
                let offset = match self.batch.offset.checked_add(1) {
                    Some(n) => n,
                    None => {
                        return Err(TtsError::Overflow);
                    },
                };
                let index = match self.batch.index.checked_add(1) {
                    Some(n) => n,
                    None => {
                        return Err(TtsError::Overflow);
                    },
                };
                let batch = Batch { offset, index, ..self.batch };
                let active = self.active;
                Ok(RoundTurn::Played(Played { batch, active, frames, hidden, logits }))
            },
            _ => Err(TtsError::UnexpectedReply),
        }
    }
}

} // verus!
