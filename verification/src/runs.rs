//! What holds of a whole run: from the first reply of the model to the last one.
//!
//! The model is outside, so a run is told by its replies. Where two runs get the
//! same replies as long as both go on, they are the same as far as it matters here.
use crate::code_loop::{ends_with, CodeLoop, CodeTurn};
use crate::codes::{transferred, values, FrameCodes, CODEBOOKS};
use crate::double::DOUBLE_ONE;
use crate::generator::{GenTurn, Generator, Phase};
use crate::grid::{all_cells, cells_of};
use crate::options::{min_of, GenerationConfig};
use crate::prefill::Prefilled;
use crate::request::{Reply, Request};
use crate::tensor::{grid, grids, tensor_cells};
use candle_core::{Device, Tensor};
use vstd::prelude::*;

verus! {

/// What generation has come to, as far as the replies tell: what is waited for, and
/// the codes of each frame.
pub struct Heard {
    pub phase: Phase,
    pub frames: Seq<Seq<int>>,
}

/// What is waited for first when logits are taken up.
pub open spec fn first_phase(config: GenerationConfig) -> Phase {
    if config.repetition_penalty.bits == DOUBLE_ONE {
        Phase::Suppressing
    } else {
        Phase::Penalizing
    }
}

impl Heard {
    /// What one more reply leads to.
    pub open spec fn hears(self, config: GenerationConfig, reply: Reply) -> Heard {
        match (self.phase, reply) {
            (Phase::Penalizing, Reply::Tensor(_)) => Heard { phase: Phase::Suppressing, ..self },
            (Phase::Suppressing, Reply::Tensor(_)) => Heard { phase: Phase::Sampling, ..self },
            (Phase::Sampling, Reply::Tensor(token)) => {
                let id = tensor_cells(token)[0] as u32;
                if ends_with(config, self.frames.len(), id) {
                    Heard { phase: Phase::Ready { id, token }, ..self }
                } else {
                    Heard { phase: Phase::Embedding { id, token }, ..self }
                }
            },
            (Phase::Embedding { id, token }, Reply::Tensor(embed)) => {
                Heard { phase: Phase::Predicting { id, token, embed }, ..self }
            },
            (Phase::Predicting { id, token, embed }, Reply::Tensor(acoustic)) => Heard {
                phase: Phase::Summing { embed, index: self.frames.len() as usize },
                frames: self.frames.push(seq![id as int] + tensor_cells(acoustic)),
            },
            (Phase::Summing { .. }, Reply::Tensor(_)) => Heard { phase: Phase::Stepping, ..self },
            (Phase::Stepping, Reply::Pair(_, _)) => Heard { phase: first_phase(config), ..self },
            _ => self,
        }
    }

    /// Whether generation is over.
    pub open spec fn is_over(self) -> bool {
        self.phase is Ready
    }

    /// Whether each frame has a code for each codebook.
    pub open spec fn is_full(self) -> bool {
        forall|f: int| 0 <= f < self.frames.len() ==> (#[trigger] self.frames[f]).len() == CODEBOOKS
    }
}

/// What generation has come to after these replies.
pub open spec fn heard(config: GenerationConfig, replies: Seq<Reply>) -> Heard
    decreases replies.len(),
{
    if replies.len() == 0 {
        Heard { phase: first_phase(config), frames: Seq::empty() }
    } else {
        heard(config, replies.drop_last()).hears(config, replies.last())
    }
}

/// Whether generation is over with the last of these replies, and not before.
pub open spec fn ends_at_last(config: GenerationConfig, replies: Seq<Reply>) -> bool {
    &&& heard(config, replies).is_over()
    &&& forall|k: int|
        0 <= k < replies.len() ==> !(#[trigger] heard(config, replies.take(k))).is_over()
}

/// Whether two runs get the same replies as long as both go on.
pub open spec fn same_replies(a: Seq<Reply>, b: Seq<Reply>) -> bool {
    forall|i: int| 0 <= i < a.len() && i < b.len() ==> #[trigger] a[i] == b[i]
}

/// Codes as numbers.
pub open spec fn numbers_of(codes: Seq<Seq<u32>>) -> Seq<Seq<int>> {
    codes.map_values(|f: Seq<u32>| cells_of(f))
}

/// Numbers of codes tell the codes.
pub proof fn lemma_numbers_of(a: Seq<Seq<u32>>, b: Seq<Seq<u32>>)
    requires
        numbers_of(a) == numbers_of(b),
    ensures
        a == b,
{
    assert(numbers_of(a).len() == a.len());
    assert(numbers_of(b).len() == b.len());
    assert forall|f: int| 0 <= f < a.len() implies a[f] == b[f] by {
        assert(numbers_of(a)[f] == cells_of(a[f]));
        assert(numbers_of(b)[f] == cells_of(b[f]));
        assert(cells_of(a[f]).len() == a[f].len());
        assert(cells_of(b[f]).len() == b[f].len());
        assert forall|q: int| 0 <= q < a[f].len() implies a[f][q] == b[f][q] by {
            assert(cells_of(a[f])[q] == a[f][q]);
            assert(cells_of(b[f])[q] == b[f][q]);
        }
        assert(a[f] =~= b[f]);
    }
    assert(a =~= b);
}

/// That a reply leads to a turn.
#[verifier::opaque]
pub open spec fn loop_leads(l: CodeLoop, reply: Reply, turn: CodeTurn) -> bool {
    l.wf() && l.steps(reply, turn)
}

/// A run of the loop that generates all frames of a text.
pub struct CodeRun {
    /// The state before each reply.
    pub states: Seq<CodeLoop>,
    /// What was asked behind each reply but the last one.
    pub asks: Seq<Request>,
    pub replies: Seq<Reply>,
    pub codes: FrameCodes,
}

impl CodeRun {
    /// Whether each step is one of the loop, and the last one ends it.
    pub open spec fn wf(self) -> bool {
        let n = self.replies.len() as int;
        &&& n > 0
        &&& self.states.len() == n
        &&& self.asks.len() == n - 1
        &&& forall|i: int|
            0 <= i < n - 1 ==> loop_leads(
                self.states[i],
                #[trigger] self.replies[i],
                CodeTurn::Ask(self.states[i + 1], self.asks[i]),
            )
        &&& loop_leads(self.states[n - 1], self.replies[n - 1], CodeTurn::Codes(self.codes))
    }

    /// Whether the run starts behind this prompt.
    pub open spec fn starts(self, f: Prefilled, device: Device) -> bool {
        exists|ask: Request| #[trigger] CodeLoop::starts(f, device, (self.states[0], ask))
    }
}

/// The codes of frames.
pub open spec fn frame_cells(frames: Seq<Tensor>) -> Seq<Seq<int>> {
    frames.map_values(|t: Tensor| tensor_cells(t))
}

impl CodeLoop {
    /// Whether the loop has come to what the replies tell.
    pub open spec fn has_heard(self, h: Heard) -> bool {
        self.generator.phase == h.phase && frame_cells(self.frames@) == h.frames
    }
}

/// Frames of one size that are put together and cut again are the same frames.
pub proof fn lemma_cut_again(frames: Seq<Tensor>, n: int)
    requires
        0 <= n <= frames.len(),
        forall|f: int| 0 <= f < frames.len() ==> tensor_cells(#[trigger] frames[f]).len() == CODEBOOKS,
    ensures
        all_cells(grids(frames).take(n)).len() == n * CODEBOOKS,
        forall|f: int|
            0 <= f < n ==> all_cells(grids(frames).take(n)).subrange(
                f * CODEBOOKS,
                f * CODEBOOKS + CODEBOOKS,
            ) == tensor_cells(#[trigger] frames[f]),
    decreases n,
{
    let gs = grids(frames);
    if n == 0 {
        assert(gs.take(0).len() == 0);
    } else {
        lemma_cut_again(frames, n - 1);
        assert(gs.take(n).drop_last() =~= gs.take(n - 1));
        assert(gs.take(n).last() == grid(frames[n - 1]));
        let before = all_cells(gs.take(n - 1));
        let all = all_cells(gs.take(n));
        assert(all == before + tensor_cells(frames[n - 1]));
        assert forall|f: int| 0 <= f < n implies all.subrange(
            f * CODEBOOKS,
            f * CODEBOOKS + CODEBOOKS,
        ) == tensor_cells(#[trigger] frames[f]) by {
            if f < n - 1 {
                assert(f * CODEBOOKS + CODEBOOKS <= (n - 1) * CODEBOOKS) by (nonlinear_arith)
                    requires
                        f < n - 1,
                ;
                assert(all.subrange(f * CODEBOOKS, f * CODEBOOKS + CODEBOOKS) =~= before.subrange(
                    f * CODEBOOKS,
                    f * CODEBOOKS + CODEBOOKS,
                ));
            } else {
                assert(all.subrange(f * CODEBOOKS, f * CODEBOOKS + CODEBOOKS) =~= tensor_cells(
                    frames[f],
                ));
            }
        }
    }
}

/// A step of the loop comes to what the reply tells.
proof fn lemma_code_step(l: CodeLoop, h: Heard, reply: Reply, turn: CodeTurn)
    requires
        l.has_heard(h),
        loop_leads(l, reply, turn),
    ensures
        !h.is_over(),
        h.frames.len() <= l.generator.config.max_new_tokens,
        turn matches CodeTurn::Ask(next, _) ==> {
            let now = h.hears(l.generator.config, reply);
            &&& next.has_heard(now)
            &&& !now.is_over()
            &&& next.generator.config == l.generator.config
        },
        turn matches CodeTurn::Codes(codes) ==> {
            let now = h.hears(l.generator.config, reply);
            &&& now.is_over()
            &&& now.frames == h.frames
            &&& h.is_full() ==> numbers_of(values(codes@)) == h.frames
        },
{
    reveal(loop_leads);
    let (g, t) = choose|g: Generator, t: GenTurn| #[trigger]
        l.generator.steps(reply, g, t) && l.follows(g, t, turn);
    assert(frame_cells(l.frames@).len() == l.frames@.len());
    match turn {
        CodeTurn::Ask(next, _) => {
            if let GenTurn::Frame { id, acoustic, .. } = t {
                let now = h.hears(l.generator.config, reply);
                assert(next.frames@ =~= l.frames@.push(next.frames@.last()));
                assert(frame_cells(next.frames@) =~= now.frames);
            }
        },
        CodeTurn::Codes(codes) => {
            if h.is_full() {
                assert forall|f: int| 0 <= f < l.frames@.len() implies tensor_cells(
                    #[trigger] l.frames@[f],
                ).len() == CODEBOOKS by {
                    assert(h.frames[f] == tensor_cells(l.frames@[f]));
                }
                lemma_cut_again(l.frames@, l.frames@.len() as int);
                assert(grids(l.frames@).take(l.frames@.len() as int) =~= grids(l.frames@));
                let ours = numbers_of(values(codes@));
                assert(transferred(l.frames@, codes@));
                assert forall|f: int| 0 <= f < ours.len() implies ours[f] == h.frames[f] by {
                    assert(values(codes@)[f] == codes@[f]@);
                    assert(h.frames[f] == tensor_cells(l.frames@[f]));
                }
                assert(ours =~= h.frames);
            }
        },
    }
}

/// Each state of a run has come to what the replies tell.
proof fn lemma_code_run(a: CodeRun, f: Prefilled, device: Device, k: int)
    requires
        a.wf(),
        a.starts(f, device),
        0 <= k < a.replies.len(),
    ensures
        a.states[k].has_heard(heard(f.config, a.replies.take(k))),
        a.states[k].generator.config == f.config,
    decreases k,
{
    if k == 0 {
        assert(a.replies.take(0).len() == 0);
        assert(frame_cells(a.states[0].frames@) =~= Seq::<Seq<int>>::empty());
    } else {
        lemma_code_run(a, f, device, k - 1);
        let h = heard(f.config, a.replies.take(k - 1));
        assert(loop_leads(
            a.states[k - 1],
            a.replies[k - 1],
            CodeTurn::Ask(a.states[k - 1 + 1], a.asks[k - 1]),
        ));
        lemma_code_step(
            a.states[k - 1],
            h,
            a.replies[k - 1],
            CodeTurn::Ask(a.states[k], a.asks[k - 1]),
        );
        assert(a.replies.take(k).drop_last() =~= a.replies.take(k - 1));
        assert(a.replies.take(k).last() == a.replies[k - 1]);
    }
}

/// The frames of a run are what the replies tell: each is the first number of a
/// sampled token and the acoustic codes that were predicted for it. Where a frame
/// has not a code for each codebook this is left open.
pub proof fn law_codes_told(a: CodeRun, f: Prefilled, device: Device)
    requires
        a.wf(),
        a.starts(f, device),
    ensures
        ends_at_last(f.config, a.replies),
        heard(f.config, a.replies).is_full() ==> numbers_of(values(a.codes@)) == heard(
            f.config,
            a.replies,
        ).frames,
        heard(f.config, a.replies).frames.len() <= f.config.max_new_tokens,
{
    let n = a.replies.len() as int;
    assert forall|k: int| 0 <= k < n implies !(#[trigger] heard(
        f.config,
        a.replies.take(k),
    )).is_over() by {
        lemma_code_run(a, f, device, k);
        let turn = if k < n - 1 {
            CodeTurn::Ask(a.states[k + 1], a.asks[k])
        } else {
            CodeTurn::Codes(a.codes)
        };
        assert(loop_leads(a.states[k], a.replies[k], turn));
        lemma_code_step(a.states[k], heard(f.config, a.replies.take(k)), a.replies[k], turn);
    }
    lemma_code_run(a, f, device, n - 1);
    let h = heard(f.config, a.replies.take(n - 1));
    lemma_code_step(a.states[n - 1], h, a.replies[n - 1], CodeTurn::Codes(a.codes));
    assert(a.replies.drop_last() =~= a.replies.take(n - 1));
    assert(heard(f.config, a.replies) == h.hears(f.config, a.replies[n - 1]));
}

/// Later replies add frames and change none.
proof fn lemma_frames_grow(config: GenerationConfig, replies: Seq<Reply>, k: int)
    requires
        0 <= k <= replies.len(),
    ensures
        heard(config, replies.take(k)).frames.is_prefix_of(heard(config, replies).frames),
    decreases replies.len() - k,
{
    if k == replies.len() {
        assert(replies.take(k) =~= replies);
        let all = heard(config, replies).frames;
        assert(all.subrange(0, all.len() as int) =~= all);
    } else {
        lemma_frames_grow(config, replies, k + 1);
        assert(replies.take(k + 1).drop_last() =~= replies.take(k));
        let now = heard(config, replies.take(k)).frames;
        let next = heard(config, replies.take(k + 1)).frames;
        let all = heard(config, replies).frames;
        assert(now.len() <= next.len());
        assert(next.subrange(0, now.len() as int) =~= now);
        assert(now =~= all.subrange(0, now.len() as int)) by {
            assert forall|i: int| 0 <= i < now.len() implies now[i] == all[i] by {
                assert(next[i] == now[i]);
                assert(all.subrange(0, next.len() as int)[i] == all[i]);
            }
        }
    }
}

/// Whether two configurations differ at most in how many frames there may be.
pub open spec fn same_but_limit(a: GenerationConfig, b: GenerationConfig) -> bool {
    a == (GenerationConfig { max_new_tokens: a.max_new_tokens, ..b })
}

/// As long as generation is not over under a smaller limit, the limit does not
/// matter.
proof fn lemma_limit(a: GenerationConfig, b: GenerationConfig, replies: Seq<Reply>)
    requires
        same_but_limit(a, b),
        a.max_new_tokens <= b.max_new_tokens,
        forall|k: int|
            0 <= k < replies.len() ==> !(#[trigger] heard(a, replies.take(k))).is_over(),
    ensures
        heard(a, replies).frames == heard(b, replies).frames,
        !heard(a, replies).is_over() ==> heard(a, replies) == heard(b, replies),
        heard(b, replies).is_over() ==> heard(a, replies).is_over(),
        heard(a, replies).is_over() && !heard(b, replies).is_over() ==> heard(a, replies).frames.len()
            >= a.max_new_tokens,
    decreases replies.len(),
{
    if replies.len() > 0 {
        let init = replies.drop_last();
        let n = init.len() as int;
        assert(replies.take(n) =~= init);
        assert forall|k: int| 0 <= k < n implies !(#[trigger] heard(a, init.take(k))).is_over() by {
            assert(init.take(k) =~= replies.take(k));
        }
        lemma_limit(a, b, init);
        assert(!heard(a, replies.take(n)).is_over());
    }
}

/// A smaller limit only cuts the sequence short and changes no frame: two runs that
/// get the same replies as long as both go on give the same frames as far as the
/// smaller limit goes.
pub proof fn law_smaller_limit(
    a: CodeRun,
    f: Prefilled,
    b: CodeRun,
    g: Prefilled,
    device: Device,
)
    requires
        a.wf(),
        a.starts(f, device),
        b.wf(),
        b.starts(g, device),
        same_but_limit(f.config, g.config),
        f.config.max_new_tokens <= g.config.max_new_tokens,
        same_replies(a.replies, b.replies),
        heard(g.config, b.replies).is_full(),
    ensures
        a.replies.len() <= b.replies.len(),
        values(a.codes@) == values(b.codes@).take(
            min_of(f.config.max_new_tokens as int, b.codes@.len() as int),
        ),
{
    law_codes_told(a, f, device);
    law_codes_told(b, g, device);
    let n = a.replies.len() as int;
    let m = b.replies.len() as int;
    if m < n {
        let common = a.replies.take(m);
        assert(common =~= b.replies);
        assert forall|k: int| 0 <= k < m implies !(#[trigger] heard(
            f.config,
            common.take(k),
        )).is_over() by {
            assert(common.take(k) =~= a.replies.take(k));
        }
        lemma_limit(f.config, g.config, common);
        assert(!heard(f.config, a.replies.take(m)).is_over());
    } else {
        let common = b.replies.take(n);
        assert(common =~= a.replies);
        lemma_limit(f.config, g.config, a.replies);
        lemma_frames_grow(g.config, b.replies, n);
        let short = heard(f.config, a.replies).frames;
        let all = heard(g.config, b.replies).frames;
        assert(short == all.subrange(0, short.len() as int));
        assert(heard(f.config, a.replies).is_full()) by {
            assert forall|i: int| 0 <= i < short.len() implies (#[trigger] short[i]).len()
                == CODEBOOKS by {
                assert(short[i] == all[i]);
            }
        }
        let ours = values(a.codes@);
        let theirs = values(b.codes@);
        assert(numbers_of(ours) == short);
        assert(numbers_of(theirs) == all);
        assert(numbers_of(theirs).len() == theirs.len());
        assert(theirs.len() == b.codes@.len());
        let limit = min_of(f.config.max_new_tokens as int, theirs.len() as int);
        if n < m {
            assert(!heard(g.config, b.replies.take(n)).is_over());
        } else {
            assert(a.replies =~= b.replies);
        }
        assert(short.len() == limit);
        assert(numbers_of(theirs.take(limit)) =~= short);
        lemma_numbers_of(ours, theirs.take(limit));
    }
}

/// Equal seeds give equal results: the seed is part of what goes with every request
/// to sample, and two runs under one configuration that get the same replies as long
/// as both go on take equally many replies and give the same frames.
pub proof fn law_equal_runs(
    a: CodeRun,
    f: Prefilled,
    b: CodeRun,
    g: Prefilled,
    device: Device,
)
    requires
        a.wf(),
        a.starts(f, device),
        b.wf(),
        b.starts(g, device),
        f.config == g.config,
        same_replies(a.replies, b.replies),
        heard(g.config, b.replies).is_full(),
    ensures
        a.replies == b.replies,
        values(a.codes@) == values(b.codes@),
{
    law_smaller_limit(a, f, b, g, device);
    let n = a.replies.len() as int;
    law_codes_told(a, f, device);
    law_codes_told(b, g, device);
    if n < b.replies.len() {
        assert(b.replies.take(n) =~= a.replies);
        assert(!heard(g.config, b.replies.take(n)).is_over());
    }
    assert(a.replies =~= b.replies);
    lemma_numbers_of(values(a.codes@), values(b.codes@));
}

/// Every request to sample carries the whole configuration, the seed among it.
pub proof fn law_seed_told(g: Generator, reply: Reply, next: Generator, turn: GenTurn)
    requires
        g.steps(reply, next, turn),
    ensures
        turn matches GenTurn::Ask(Request::Sample { config, .. }) ==> config == g.config,
        next.config == g.config,
{
}

} // verus!
