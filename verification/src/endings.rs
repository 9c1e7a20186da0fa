//! Every synthesis ends, whatever the model replies.
use crate::batch::all_values;
use crate::batch_prompt::{BatchPrefill, PromptPhase};
use crate::batch_start::{BatchPhase, BatchStart};
use crate::batch_stream::{BatchStreaming, StreamStage, StreamTurn};
use crate::batch_synth::{BatchStage, BatchSynthesis, BatchTurn};
use crate::clone::{ClonePhase, ClonePrefill};
use crate::code_loop::{CodeLoop, CodeTurn};
use crate::generator::{Generator, Phase};
use crate::options::greatest;
use crate::prefill::{Prefill, PrefillPhase};
use crate::request::{Reply, Request};
use crate::round::{indices, lemma_actives, Round, RoundPhase, RoundTurn};
use crate::sampler::TokenStep;
use crate::session::{ChunkTurn, StreamingSession, Waiting};
use crate::synth::{Stage, SynthTurn, Synthesis};
use crate::trailing::TrailingText;
use vstd::prelude::*;

verus! {

/// A bound on the replies that are still to come before all frames are there.
pub open spec fn frames_left(g: Generator) -> int {
    8 * (g.config.max_new_tokens - g.frames) + match g.phase {
        Phase::Summing { .. } => 10,
        Phase::Stepping => 9,
        Phase::Penalizing => 7,
        Phase::Suppressing => 6,
        Phase::Sampling => 5,
        Phase::Ready { .. } => 5,
        Phase::Embedding { .. } => 4int,
        Phase::Predicting { .. } => 3,
    }
}

impl CodeLoop {
    /// A bound on the replies that are still to come.
    pub open spec fn left(self) -> int {
        frames_left(self.generator)
    }
}

/// Generation ends: whatever the replies are, each brings the end nearer.
pub proof fn law_generation_ends(l: CodeLoop, reply: Reply, next: CodeLoop, ask: Request)
    requires
        l.wf(),
        next.wf(),
        l.steps(reply, CodeTurn::Ask(next, ask)),
    ensures
        0 < next.left() < l.left(),
{
}

impl StreamingSession {
    /// A bound on the replies that are still to come before the next chunk.
    pub open spec fn left(self) -> int {
        match self.waiting {
            Waiting::Nothing => 0,
            Waiting::Model => 3 + frames_left(self.generator->0),
            Waiting::Waveform => 2,
            Waiting::Audio => 1,
        }
    }
}

/// A chunk ends: whatever the replies are, each brings it nearer.
pub proof fn law_chunk_comes(s: StreamingSession, reply: Reply, next: StreamingSession, ask: Request)
    requires
        s.wf(),
        next.wf(),
        s.steps(reply, next, ChunkTurn::Ask(ask)),
    ensures
        0 < next.left() < s.left(),
{
}

impl TrailingText {
    /// How many replies are still to come.
    pub open spec fn left(self) -> int {
        match self {
            TrailingText::Projecting => 3,
            TrailingText::Ending(_) => 2,
            TrailingText::Padding { .. } => 1,
        }
    }
}

impl Prefill {
    /// A bound on the replies that are still to come.
    pub open spec fn left(self) -> int {
        match self.phase {
            PrefillPhase::Encoding(_) => 22,
            PrefillPhase::Describing { .. } => 21,
            PrefillPhase::Trailing { text, .. } => 10 + text.left(),
            PrefillPhase::Caching { .. } => 2,
            PrefillPhase::Running { .. } => 1,
        }
    }
}

impl ClonePrefill {
    /// A bound on the replies that are still to come.
    pub open spec fn left(self) -> int {
        match self.phase {
            ClonePhase::Encoding => 60,
            ClonePhase::Caching { .. } => 59,
            ClonePhase::Running { .. } => 58,
            ClonePhase::Semantic(_) => 57,
            ClonePhase::Acoustic { group, .. } => 56 - group,
            ClonePhase::Prompting(_) => 30,
            ClonePhase::Masking { .. } => 29,
            ClonePhase::Layers { .. } => 28,
            ClonePhase::Norm { .. } => 27,
            ClonePhase::Head { .. } => 26,
            ClonePhase::Padding { .. } => 25,
            ClonePhase::Trailing { text, .. } => 10 + text.left(),
        }
    }
}

impl Synthesis {
    /// How many stages are behind.
    pub open spec fn behind(self) -> int {
        match self.stage {
            Stage::Prefill(_) => 0,
            Stage::Clone(_) => 0,
            Stage::Generating(_) => 1,
            Stage::Decoding { .. } => 2,
            Stage::Reading { .. } => 3,
        }
    }

    /// A bound on the replies that are still to come in this stage.
    pub open spec fn left(self) -> int {
        match self.stage {
            Stage::Prefill(p) => p.left(),
            Stage::Clone(c) => c.left(),
            Stage::Generating(l) => l.left(),
            Stage::Decoding { .. } => 1,
            Stage::Reading { .. } => 1,
        }
    }
}

/// A synthesis ends: whatever the replies are, each brings the end of a stage
/// nearer, and there are four stages.
pub proof fn law_synthesis_ends(s: Synthesis, reply: Reply, next: Synthesis, ask: Request)
    requires
        s.wf(),
        next.wf(),
        s.steps(reply, SynthTurn::Ask(next, ask)),
    ensures
        s.behind() < next.behind() <= 3 || s.behind() == next.behind() && 0 < next.left() < s.left(),
{
    match s.stage {
        Stage::Generating(l) => {
            if let Stage::Generating(m) = next.stage {
                law_generation_ends(l, reply, m, ask);
            }
        },
        _ => {},
    }
}

impl BatchPrefill {
    /// A bound on the replies that are still to come.
    pub open spec fn left(self) -> int {
        let texts = self.items@.len() - self.embeds@.len();
        4 * texts + match self.phase {
            PromptPhase::Role => 10,
            PromptPhase::Pads { .. } => 9,
            PromptPhase::Suffix { .. } => 8,
            PromptPhase::Encoding(_) => 3,
            PromptPhase::Codec { .. } => 2int,
            PromptPhase::First { .. } => 1,
        }
    }
}

impl BatchStart {
    /// A bound on the replies that are still to come.
    pub open spec fn left(self) -> int {
        let n = self.ids@.len() as int;
        match self.phase {
            BatchPhase::Caching { .. } => 10 * n + 23,
            BatchPhase::Layers => 10 * n + 22,
            BatchPhase::Norm => 10 * n + 21,
            BatchPhase::Heads { logits, .. } => 6 * n + 10 - logits@.len(),
            BatchPhase::Padding { .. } => 5 * n + 9,
            BatchPhase::Trailing { trailings, text, .. } => 4 * (n - trailings@.len()) + text.left(),
        }
    }
}

impl Round {
    /// A bound on the replies that are still to come.
    pub open spec fn left(self) -> int {
        let n = self.active@.len() as int;
        match self.phase {
            RoundPhase::Embedding { embeds } => 3 * n + 10 - embeds@.len(),
            RoundPhase::Predicting { .. } => 2 * n + 10,
            RoundPhase::Summing { sums, .. } => 2 * n + 9 - sums@.len(),
            RoundPhase::Layers { .. } => 3,
            RoundPhase::Norm { .. } => 2,
            RoundPhase::Head { .. } => 1,
        }
    }
}

impl BatchSynthesis {
    /// How many stages are behind.
    pub open spec fn behind(self) -> int {
        match self.stage {
            BatchStage::Single(s) => s.behind(),
            BatchStage::Prompts(_) => 0,
            BatchStage::Starting(_) => 1,
            BatchStage::First { .. } => 2,
            BatchStage::Playing(_) => 3,
            BatchStage::Choosing(_) => 3,
            BatchStage::Decoding(_) => 4,
            BatchStage::Reading { .. } => 5,
        }
    }

    /// How many frames can still be made.
    pub open spec fn rounds(self) -> int {
        match self.stage {
            BatchStage::Playing(r) => greatest(self.limits@) - r.batch.index,
            BatchStage::Choosing(p) => greatest(self.limits@) - p.batch.index,
            _ => 0,
        }
    }

    /// A bound on the replies that are still to come before the next frame, or in
    /// this stage.
    pub open spec fn left(self) -> int {
        match self.stage {
            BatchStage::Single(s) => s.left(),
            BatchStage::Prompts(p) => p.left(),
            BatchStage::Starting(b) => b.left(),
            BatchStage::First { .. } => 1,
            BatchStage::Playing(r) => r.left(),
            BatchStage::Choosing(_) => 3 * self.codes@.len() as int + 20,
            BatchStage::Decoding(_) => 1,
            BatchStage::Reading { order, next, .. } => order@.len() - next,
        }
    }
}

/// A reply brings the end of a round nearer.
proof fn lemma_round_ends(r: Round, reply: Reply, next: Round, ask: Request)
    requires
        r.wf(),
        next.wf(),
        r.steps(reply, RoundTurn::Ask(next, ask)),
    ensures
        0 < next.left() < r.left(),
{
}

/// The synthesis of a batch ends: whatever the replies are, each brings the end of
/// a stage, the next frame or the last frame nearer.
pub proof fn law_batch_ends(b: BatchSynthesis, reply: Reply, next: BatchSynthesis, ask: Request)
    requires
        b.wf(),
        next.wf(),
        b.steps(reply, BatchTurn::Ask(next, ask)),
    ensures
        ({
            ||| b.behind() < next.behind() <= 5
            ||| b.behind() == next.behind() && 0 <= next.rounds() < b.rounds()
            ||| b.behind() == next.behind() && b.rounds() == next.rounds() && 0 < next.left()
                < b.left()
        }),
{
    match (b.stage, next.stage) {
        (BatchStage::Single(s), BatchStage::Single(t)) => {
            law_synthesis_ends(s, reply, t, ask);
        },
        (BatchStage::Playing(r), BatchStage::Playing(t)) => {
            lemma_round_ends(r, reply, t, ask);
        },
        (BatchStage::Choosing(_), BatchStage::Playing(t)) => {
            lemma_actives(t.batch.done@);
            assert(indices(t.active@).len() == t.active@.len());
        },
        _ => {},
    }
}

impl TokenStep {
    /// How many replies are still to come, at most.
    pub open spec fn left(self) -> int {
        match self.phase {
            Phase::Penalizing => 3,
            Phase::Suppressing => 2,
            _ => 1,
        }
    }
}

impl BatchStreaming {
    /// How many stages are behind. Frames and chunks come in one stage, and the
    /// last chunks in another.
    pub open spec fn behind(self) -> int {
        match self.stage {
            StreamStage::Prompts(_) => 0,
            StreamStage::Starting(_) => 1,
            StreamStage::First { .. } => 2,
            StreamStage::Decoding { batch: None, .. } => 4,
            StreamStage::Reading { batch: None, .. } => 4,
            StreamStage::Sent { batch: None, .. } => 4,
            _ => 3,
        }
    }

    /// How many frames can still be made.
    pub open spec fn rounds(self) -> int {
        match self.stage {
            StreamStage::Playing(r) => greatest(self.limits@) - r.batch.index,
            StreamStage::Next { played, .. } => greatest(self.limits@) - played.batch.index,
            StreamStage::Decoding { batch: Some(b), .. } => greatest(self.limits@) - b.index,
            StreamStage::Reading { batch: Some(b), .. } => greatest(self.limits@) - b.index,
            StreamStage::Sent { batch: Some(b), .. } => greatest(self.limits@) - b.index,
            _ => 0,
        }
    }

    /// A bound on the replies that are still to come before the next frame, or in
    /// this stage.
    pub open spec fn left(self) -> int {
        let n = self.count() as int;
        match self.stage {
            StreamStage::Prompts(p) => p.left(),
            StreamStage::Starting(b) => b.left(),
            StreamStage::First { tokens, step, .. } => 4 * (n - tokens@.len()) + step.left(),
            StreamStage::Playing(r) => r.left(),
            StreamStage::Next { played, k, step } => {
                6 * n + 20 + 4 * (played.active@.len() - k) + step.left()
            },
            StreamStage::Decoding { lane, .. } => 3 * n + 11 + 3 * (n - lane) + 2,
            StreamStage::Reading { lane, .. } => 3 * n + 11 + 3 * (n - lane) + 1,
            StreamStage::Sent { lane, .. } => 3 * n + 11 + 3 * (n - lane),
        }
    }

    /// Whether `next` is nearer to the end.
    pub open spec fn nearer(self, next: BatchStreaming) -> bool {
        ||| self.behind() < next.behind() <= 4
        ||| self.behind() == next.behind() && 0 <= next.rounds() < self.rounds()
        ||| self.behind() == next.behind() && self.rounds() == next.rounds() && 0 < next.left()
            < self.left()
    }
}

/// A round that starts takes so many replies at most.
proof fn lemma_round_starts(r: Round)
    requires
        r.wf(),
    ensures
        r.left() <= 3 * r.batch.tokens@.len() + 10,
{
    lemma_actives(r.batch.done@);
    assert(indices(r.active@).len() == r.active@.len());
}

/// There is a list of frames for each buffer.
proof fn lemma_counts(s: BatchStreaming, turn: StreamTurn)
    ensures
        all_values(s.buffers@).len() == s.count(),
        turn matches StreamTurn::Ask(next, _) ==> all_values(next.buffers@).len() == next.count(),
        turn matches StreamTurn::Chunk { rest, .. } ==> all_values(rest.buffers@).len()
            == rest.count(),
        turn matches StreamTurn::Passed { rest, .. } ==> all_values(rest.buffers@).len()
            == rest.count(),
{
}

/// Batched streaming ends: whatever the replies are, each brings the end of a
/// stage, the next frame or the last frame nearer.
pub proof fn law_stream_ends(s: BatchStreaming, reply: Reply, turn: StreamTurn)
    requires
        s.wf(),
        s.steps(reply, turn),
        turn.wf(),
    ensures
        turn matches StreamTurn::Ask(next, _) ==> s.nearer(next),
        turn matches StreamTurn::Chunk { rest, .. } ==> s.nearer(rest),
        turn matches StreamTurn::Passed { rest, .. } ==> s.nearer(rest),
{
    lemma_counts(s, turn);
    if let StreamTurn::Ask(next, ask) = turn {
        match (s.stage, next.stage) {
            (StreamStage::Playing(r), StreamStage::Playing(t)) => {
                if r.steps(reply, RoundTurn::Ask(t, ask)) {
                    lemma_round_ends(r, reply, t, ask);
                }
            },
            (_, StreamStage::Playing(t)) => {
                lemma_round_starts(t);
            },
            _ => {},
        }
    }
}

/// So does going on behind a chunk.
pub proof fn law_chunk_ends(s: BatchStreaming, turn: StreamTurn)
    requires
        s.wf(),
        s.stage matches StreamStage::Sent { batch, lane } && s.idle().goes_on(batch, lane, turn),
        turn.wf(),
    ensures
        turn matches StreamTurn::Ask(next, _) ==> s.nearer(next),
        turn matches StreamTurn::Passed { rest, .. } ==> s.nearer(rest),
{
    lemma_counts(s, turn);
    if let StreamTurn::Ask(next, ask) = turn {
        if let StreamStage::Playing(t) = next.stage {
            lemma_round_starts(t);
        }
    }
}

} // verus!
