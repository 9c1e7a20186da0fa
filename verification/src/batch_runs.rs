//! A batch comes to the same whatever the sampling settings: each token is the
//! greatest of the suppressed logits.
use crate::audio::AudioBuffer;
use crate::batch::{
    all_values, empties, is_greedy, lemma_in_order, lemma_one_choice, with_frames,
};
use crate::batch_prompt::{clones, BatchPrefill, PromptPhase, PromptTurn};
use crate::batch_start::{BatchPhase, BatchStart, BatchStartTurn};
use crate::batch_synth::{are_choices, silent, BatchStage, BatchSynthesis, BatchTurn};
use crate::clone::VoiceClonePrompt;
use crate::codes::{transferred, values};
use crate::generation::are_logits;
use crate::grid::Grid;
use crate::model::{batch_ends, batch_limits, BatchRequest, Qwen3TTS};
use crate::options::{greatest, options_or_default};
use crate::request::{Reply, Request};
use crate::round::{actives, ended, indices, Batch, Played, Round, RoundPhase, RoundTurn};
use crate::runs::same_replies;
use crate::same_runs::texts_alike;
use crate::tensor::{grid, tensor_dims, tensor_location};
use crate::voice_prompt::same_audio;
use candle_core::Tensor;
use vstd::prelude::*;

verus! {

/// Whether two lists of requests agree but for the sampling settings: texts,
/// languages, how many frames there may be and which token ends a text are the same.
pub open spec fn requests_alike(a: Seq<BatchRequest>, b: Seq<BatchRequest>) -> bool {
    &&& a.len() == b.len()
    &&& forall|i: int|
        0 <= i < a.len() ==> {
            let x = options_or_default((#[trigger] a[i]).2);
            let y = options_or_default(b[i].2);
            &&& a[i].0@ == b[i].0@
            &&& a[i].1 == b[i].1
            &&& x.max_length == y.max_length
            &&& x.eos_token_id == y.eos_token_id
        }
}

/// A batch of several texts holds no sampling settings: what it starts as under some,
/// it starts as under others.
pub proof fn law_greedy_start(
    model: Qwen3TTS,
    a: Seq<BatchRequest>,
    b: Seq<BatchRequest>,
    prompts: Seq<Option<&VoiceClonePrompt>>,
    turn: BatchTurn,
)
    requires
        a.len() > 1,
        requests_alike(a, b),
        model.starts_batch(a, prompts, turn),
    ensures
        model.starts_batch(b, prompts, turn),
{
    assert(batch_limits(a) =~= batch_limits(b)) by {
        assert forall|i: int| 0 <= i < a.len() implies batch_limits(a)[i] == batch_limits(b)[i] by {
            assert(a[i].0@ == b[i].0@);
        }
    }
    assert(batch_ends(a) =~= batch_ends(b)) by {
        assert forall|i: int| 0 <= i < a.len() implies batch_ends(a)[i] == batch_ends(b)[i] by {
            assert(a[i].0@ == b[i].0@);
        }
    }
    let p = turn->Ask_0.stage->Prompts_0;
    assert forall|i: int| 0 <= i < p.items@.len() implies (#[trigger] p.items@[i]).text@
        == b[i].0@ && p.items@[i].language == b[i].1 by {
        assert(a[i].0@ == b[i].0@);
    }
}

/// How many frames each sequence has.
pub open spec fn frame_counts(codes: Seq<Seq<Seq<u32>>>) -> Seq<nat> {
    codes.map_values(|f: Seq<Seq<u32>>| f.len())
}

/// Whether the prompts of two batches have come equally far.
pub open spec fn prompts_alike(p: BatchPrefill, q: BatchPrefill) -> bool {
    &&& p.items@.len() == q.items@.len()
    &&& clones(p.items@) == clones(q.items@)
    &&& p.embeds@.len() == q.embeds@.len()
    &&& values(p.ids@) == values(q.ids@)
    &&& match (p.phase, q.phase) {
        (PromptPhase::Role, PromptPhase::Role) => true,
        (PromptPhase::Pads { .. }, PromptPhase::Pads { .. }) => true,
        (PromptPhase::Suffix { .. }, PromptPhase::Suffix { .. }) => true,
        (PromptPhase::Encoding(_), PromptPhase::Encoding(_)) => true,
        (PromptPhase::Codec { ids: i, .. }, PromptPhase::Codec { ids: j, .. }) => i@ == j@,
        (PromptPhase::First { ids: i, .. }, PromptPhase::First { ids: j, .. }) => i@ == j@,
        _ => false,
    }
}

/// Whether the talker has come equally far on the prompts of two batches.
pub open spec fn starts_alike(s: BatchStart, t: BatchStart) -> bool {
    &&& values(s.ids@) == values(t.ids@)
    &&& match (s.phase, t.phase) {
        (BatchPhase::Caching { .. }, BatchPhase::Caching { .. }) => true,
        (BatchPhase::Layers, BatchPhase::Layers) => true,
        (BatchPhase::Norm, BatchPhase::Norm) => true,
        (BatchPhase::Heads { logits: l, .. }, BatchPhase::Heads { logits: m, .. }) => l@.len()
            == m@.len(),
        (BatchPhase::Padding { .. }, BatchPhase::Padding { .. }) => true,
        (
            BatchPhase::Trailing { trailings: x, text: t, .. },
            BatchPhase::Trailing { trailings: y, text: u, .. },
        ) => x@.len() == y@.len() && texts_alike(t, u),
        _ => false,
    }
}

/// Whether two batches have the same tokens, and the same sequences have ended.
pub open spec fn batches_alike(b: Batch, c: Batch) -> bool {
    &&& b.ids@ == c.ids@
    &&& b.done@ == c.done@
    &&& b.ends@ == c.ends@
    &&& b.index == c.index
}

/// Whether two rounds have come equally far.
pub open spec fn rounds_alike(r: Round, s: Round) -> bool {
    &&& batches_alike(r.batch, s.batch)
    &&& r.active@ == s.active@
    &&& match (r.phase, s.phase) {
        (RoundPhase::Embedding { embeds: x }, RoundPhase::Embedding { embeds: y }) => x@.len()
            == y@.len(),
        (RoundPhase::Predicting { .. }, RoundPhase::Predicting { .. }) => true,
        (RoundPhase::Summing { sums: x, .. }, RoundPhase::Summing { sums: y, .. }) => x@.len()
            == y@.len(),
        (RoundPhase::Layers { .. }, RoundPhase::Layers { .. }) => true,
        (RoundPhase::Norm { .. }, RoundPhase::Norm { .. }) => true,
        (RoundPhase::Head { .. }, RoundPhase::Head { .. }) => true,
        _ => false,
    }
}

/// Whether there is the same audio for each text.
pub open spec fn all_same_audio(a: Seq<AudioBuffer>, b: Seq<AudioBuffer>) -> bool {
    &&& a.len() == b.len()
    &&& forall|i: int| 0 <= i < a.len() ==> same_audio(#[trigger] a[i], b[i])
}

/// Whether two batches of several texts have come equally far.
pub open spec fn syntheses_alike(a: BatchSynthesis, b: BatchSynthesis) -> bool {
    &&& a.limits@ == b.limits@
    &&& a.ends@ == b.ends@
    &&& frame_counts(all_values(a.codes@)) == frame_counts(all_values(b.codes@))
    &&& match (a.stage, b.stage) {
        (BatchStage::Prompts(p), BatchStage::Prompts(q)) => prompts_alike(p, q),
        (BatchStage::Starting(s), BatchStage::Starting(t)) => starts_alike(s, t),
        (BatchStage::First { .. }, BatchStage::First { .. }) => true,
        (BatchStage::Playing(r), BatchStage::Playing(s)) => rounds_alike(r, s),
        (BatchStage::Choosing(p), BatchStage::Choosing(q)) => batches_alike(p.batch, q.batch)
            && p.active@ == q.active@,
        (BatchStage::Decoding(o), BatchStage::Decoding(p)) => o@ == p@,
        (
            BatchStage::Reading { order: o, next: j, results: x, .. },
            BatchStage::Reading { order: p, next: k, results: y, .. },
        ) => o@ == p@ && j == k && all_same_audio(x@, y@),
        _ => false,
    }
}

/// Whether two turns come to the same.
pub open spec fn batch_turns_alike(t: BatchTurn, u: BatchTurn) -> bool {
    match (t, u) {
        (BatchTurn::Ask(x, _), BatchTurn::Ask(y, _)) => syntheses_alike(x, y),
        (BatchTurn::Done(x), BatchTurn::Done(y)) => all_same_audio(x@, y@),
        _ => false,
    }
}

/// Whether logits are such that one choice of codes is the greatest.
pub open spec fn decides(b: BatchSynthesis, reply: Reply) -> bool {
    (b.stage is First || b.stage is Choosing) ==> (reply matches Reply::Tensor(logits)
        ==> tensor_location(logits) is Cpu && (tensor_dims(logits).len() == 2 ==> tensor_dims(
        logits,
    )[1] <= u32::MAX))
}

/// A reply leads prompts that are alike to the same.
proof fn lemma_prompts(p: BatchPrefill, q: BatchPrefill, reply: Reply, t: PromptTurn, u: PromptTurn)
    requires
        prompts_alike(p, q),
        p.steps(reply, t),
        q.steps(reply, u),
    ensures
        match (t, u) {
            (PromptTurn::Ask(x, _), PromptTurn::Ask(y, _)) => prompts_alike(x, y),
            (PromptTurn::Built { ids: i, .. }, PromptTurn::Built { ids: j, .. }) => values(i@)
                == values(j@),
            _ => false,
        },
{
    match (p.phase, q.phase) {
        (PromptPhase::First { ids: i, .. }, PromptPhase::First { ids: j, .. }) => {
            let x = match t {
                PromptTurn::Ask(n, _) => n.ids,
                PromptTurn::Built { ids, .. } => ids,
            };
            let y = match u {
                PromptTurn::Ask(n, _) => n.ids,
                PromptTurn::Built { ids, .. } => ids,
            };
            assert(x@ == p.ids@.push(i));
            assert(y@ == q.ids@.push(j));
            assert(values(x@) =~= values(p.ids@).push(i@));
            assert(values(y@) =~= values(q.ids@).push(j@));
        },
        _ => {},
    }
}

/// A reply leads starts that are alike to the same.
proof fn lemma_starts(s: BatchStart, v: BatchStart, reply: Reply, t: BatchStartTurn, u: BatchStartTurn)
    requires
        s.wf(),
        v.wf(),
        starts_alike(s, v),
        s.steps(reply, t),
        v.steps(reply, u),
    ensures
        match (t, u) {
            (BatchStartTurn::Ask(x, _), BatchStartTurn::Ask(y, _)) => starts_alike(x, y),
            (BatchStartTurn::Ready(_), BatchStartTurn::Ready(_)) => true,
            _ => false,
        },
{
    assert(values(s.ids@).len() == s.ids@.len());
    assert(values(v.ids@).len() == v.ids@.len());
    assert forall|i: int| 0 <= i < s.ids@.len() implies (#[trigger] s.ids@[i])@ == v.ids@[i]@ by {
        assert(values(s.ids@)[i] == s.ids@[i]@);
        assert(values(v.ids@)[i] == v.ids@[i]@);
    }
}

/// A reply leads rounds that are alike to the same.
proof fn lemma_rounds(r: Round, s: Round, reply: Reply, t: RoundTurn, u: RoundTurn)
    requires
        r.wf(),
        s.wf(),
        rounds_alike(r, s),
        r.steps(reply, t),
        s.steps(reply, u),
    ensures
        match (t, u) {
            (RoundTurn::Ask(x, _), RoundTurn::Ask(y, _)) => rounds_alike(x, y),
            (RoundTurn::Played(p), RoundTurn::Played(q)) => batches_alike(p.batch, q.batch)
                && p.active@ == q.active@,
            _ => false,
        },
{
}

/// The same positions as numbers are the same positions.
proof fn lemma_indices(a: Seq<usize>, b: Seq<usize>)
    requires
        indices(a) == indices(b),
    ensures
        a == b,
{
    assert(indices(a).len() == a.len());
    assert(indices(b).len() == b.len());
    assert forall|i: int| 0 <= i < a.len() implies a[i] == b[i] by {
        assert(indices(a)[i] == a[i]);
        assert(indices(b)[i] == b[i]);
    }
    assert(a =~= b);
}

/// Equally many frames get equally many more.
proof fn lemma_counts_grow(
    c: Seq<Seq<Seq<u32>>>,
    d: Seq<Seq<Seq<u32>>>,
    active: Seq<usize>,
    x: Seq<Seq<u32>>,
    y: Seq<Seq<u32>>,
)
    requires
        frame_counts(c) == frame_counts(d),
        x.len() == y.len(),
        forall|k: int| 0 <= k < active.len() ==> #[trigger] active[k] < c.len(),
    ensures
        frame_counts(with_frames(c, active, x)) == frame_counts(with_frames(d, active, y)),
        with_frames(c, active, x).len() == c.len(),
    decreases active.len(),
{
    assert(frame_counts(c).len() == c.len());
    assert(frame_counts(d).len() == d.len());
    if active.len() > 0 && x.len() > 0 {
        assert forall|k: int| 0 <= k < active.len() - 1 implies #[trigger] active.drop_last()[k]
            < c.len() by {
            assert(active.drop_last()[k] == active[k]);
        }
        assert(active[active.len() - 1] < c.len());
        lemma_counts_grow(c, d, active.drop_last(), x.drop_last(), y.drop_last());
        let p = with_frames(c, active.drop_last(), x.drop_last());
        let q = with_frames(d, active.drop_last(), y.drop_last());
        let i = active.last() as int;
        assert(frame_counts(p).len() == p.len());
        assert(frame_counts(q).len() == q.len());
        assert forall|k: int| 0 <= k < p.len() implies p[k].len() == q[k].len() by {
            assert(frame_counts(p)[k] == p[k].len());
            assert(frame_counts(q)[k] == q[k].len());
        }
        assert(frame_counts(with_frames(c, active, x)) =~= frame_counts(
            with_frames(d, active, y),
        ));
    }
}

/// The end comes to the same.
proof fn lemma_finish(
    a: BatchSynthesis,
    b: BatchSynthesis,
    c: Seq<Seq<Seq<u32>>>,
    d: Seq<Seq<Seq<u32>>>,
    t: BatchTurn,
    u: BatchTurn,
)
    requires
        a.limits@ == b.limits@,
        a.ends@ == b.ends@,
        frame_counts(c) == frame_counts(d),
        a.finishes(c, t),
        b.finishes(d, u),
    ensures
        batch_turns_alike(t, u),
{
    assert(frame_counts(c).len() == c.len());
    assert(frame_counts(d).len() == d.len());
    assert(empties(c) =~= empties(d)) by {
        assert forall|i: int| 0 <= i < c.len() implies empties(c)[i] == empties(d)[i] by {
            assert(frame_counts(c)[i] == c[i].len());
            assert(frame_counts(d)[i] == d[i].len());
        }
    }
    if actives(empties(c)).len() == 0 {
        let x = t->Done_0;
        let y = u->Done_0;
        assert forall|i: int| 0 <= i < x@.len() implies same_audio(#[trigger] x@[i], y@[i]) by {
            assert(x@[i].samples@.len() == 0);
            assert(y@[i].samples@.len() == 0);
            assert(x@[i].samples@ =~= y@[i].samples@);
        }
    } else {
        let x = t->Ask_0.stage->Decoding_0;
        let y = u->Ask_0.stage->Decoding_0;
        lemma_indices(x@, y@);
    }
}

/// The next tokens lead to the same.
proof fn lemma_proceed(
    a: BatchSynthesis,
    b: BatchSynthesis,
    x: Batch,
    y: Batch,
    c: Seq<Seq<Seq<u32>>>,
    d: Seq<Seq<Seq<u32>>>,
    t: BatchTurn,
    u: BatchTurn,
)
    requires
        a.limits@ == b.limits@,
        a.ends@ == b.ends@,
        batches_alike(x, y),
        frame_counts(c) == frame_counts(d),
        a.proceeds(x, c, t),
        b.proceeds(y, d, u),
    ensures
        batch_turns_alike(t, u),
{
    let done = ended(x.done@, x.ids@, x.ends@, x.index, a.limits@);
    if actives(done).len() > 0 {
        let r = t->Ask_0.stage->Playing_0;
        let s = u->Ask_0.stage->Playing_0;
        lemma_indices(r.active@, s.active@);
    } else {
        lemma_finish(a, b, c, d, t, u);
    }
}

/// The same logits give the same tokens.
proof fn lemma_choices(logits: Tensor, t: Seq<Tensor>, i: Seq<u32>, u: Seq<Tensor>, j: Seq<u32>)
    requires
        are_choices(grid(logits), t, i),
        are_choices(grid(logits), u, j),
        t.len() == u.len(),
        tensor_location(logits) is Cpu,
        tensor_dims(logits).len() == 2 ==> tensor_dims(logits)[1] <= u32::MAX,
    ensures
        i == j,
{
    let g = grid(logits);
    let x = choose|x: Grid|
        {
            &&& #[trigger] is_greedy(g, x)
            &&& t.len() <= x.cells.len()
            &&& i.len() == t.len()
            &&& forall|k: int| 0 <= k < t.len() ==> #[trigger] i[k] == x.cells[k]
        };
    let y = choose|y: Grid|
        {
            &&& #[trigger] is_greedy(g, y)
            &&& u.len() <= y.cells.len()
            &&& j.len() == u.len()
            &&& forall|k: int| 0 <= k < u.len() ==> #[trigger] j[k] == y.cells[k]
        };
    lemma_one_choice(g, x, y);
    assert forall|k: int| 0 <= k < i.len() implies i[k] == j[k] by {
        assert(i[k] == x.cells[k]);
        assert(j[k] == y.cells[k]);
    }
    assert(i =~= j);
}

/// That a reply leads to a turn.
#[verifier::opaque]
pub open spec fn batch_leads(b: BatchSynthesis, reply: Reply, turn: BatchTurn) -> bool {
    b.wf() && b.steps(reply, turn)
}

/// The first tokens lead to the same.
proof fn lemma_open(a: BatchSynthesis, b: BatchSynthesis, logits: Tensor, t: BatchTurn, u: BatchTurn)
    requires
        a.wf(),
        b.wf(),
        syntheses_alike(a, b),
        a.stage is First,
        decides(a, Reply::Tensor(logits)),
        a.opens(a.stage->First_ready, a.stage->First_zero, logits, t),
        b.opens(b.stage->First_ready, b.stage->First_zero, logits, u),
    ensures
        batch_turns_alike(t, u),
{
    let m = a.stage->First_ready;
    let n = b.stage->First_ready;
    let x = choose|x: Batch|
        {
            &&& x.ends@ == a.ends@
            &&& x.index == 0
            &&& x.done@ == Seq::new(m.last_hiddens@.len(), |i: int| false)
            &&& x.tokens@.len() == m.last_hiddens@.len()
            &&& are_choices(grid(logits), x.tokens@, x.ids@)
            &&& #[trigger] a.proceeds(x, all_values(a.codes@), t)
        };
    let y = choose|y: Batch|
        {
            &&& y.ends@ == b.ends@
            &&& y.index == 0
            &&& y.done@ == Seq::new(n.last_hiddens@.len(), |i: int| false)
            &&& y.tokens@.len() == n.last_hiddens@.len()
            &&& are_choices(grid(logits), y.tokens@, y.ids@)
            &&& #[trigger] b.proceeds(y, all_values(b.codes@), u)
        };
    lemma_same_count(a, b);
    lemma_choices(logits, x.tokens@, x.ids@, y.tokens@, y.ids@);
    lemma_proceed(a, b, x, y, all_values(a.codes@), all_values(b.codes@), t, u);
}

/// There are equally many sequences.
proof fn lemma_same_count(a: BatchSynthesis, b: BatchSynthesis)
    requires
        frame_counts(all_values(a.codes@)) == frame_counts(all_values(b.codes@)),
    ensures
        a.codes@.len() == b.codes@.len(),
{
    assert(frame_counts(all_values(a.codes@)).len() == all_values(a.codes@).len());
    assert(frame_counts(all_values(b.codes@)).len() == all_values(b.codes@).len());
    assert(all_values(a.codes@).len() == a.codes@.len());
    assert(all_values(b.codes@).len() == b.codes@.len());
}

/// The next tokens and the frames before them lead to the same.
proof fn lemma_choose(a: BatchSynthesis, b: BatchSynthesis, logits: Tensor, t: BatchTurn, u: BatchTurn)
    requires
        a.wf(),
        b.wf(),
        syntheses_alike(a, b),
        a.stage is Choosing,
        decides(a, Reply::Tensor(logits)),
        a.chooses(a.stage->Choosing_0, logits, t),
        b.chooses(b.stage->Choosing_0, logits, u),
    ensures
        batch_turns_alike(t, u),
{
    let p = a.stage->Choosing_0;
    let q = b.stage->Choosing_0;
    let (x, f) = choose|x: Batch, f: Seq<Vec<u32>>|
        {
            &&& x == (Batch {
                tokens: x.tokens,
                ids: x.ids,
                last_hiddens: x.last_hiddens,
                ..p.batch
            })
            &&& x.tokens@.len() == p.batch.tokens@.len()
            &&& are_choices(grid(logits), x.tokens@, x.ids@)
            &&& #[trigger] transferred(p.frames@, f)
            &&& #[trigger] a.proceeds(
                x,
                with_frames(all_values(a.codes@), p.active@, values(f)),
                t,
            )
        };
    let (y, g) = choose|y: Batch, g: Seq<Vec<u32>>|
        {
            &&& y == (Batch {
                tokens: y.tokens,
                ids: y.ids,
                last_hiddens: y.last_hiddens,
                ..q.batch
            })
            &&& y.tokens@.len() == q.batch.tokens@.len()
            &&& are_choices(grid(logits), y.tokens@, y.ids@)
            &&& #[trigger] transferred(q.frames@, g)
            &&& #[trigger] b.proceeds(
                y,
                with_frames(all_values(b.codes@), q.active@, values(g)),
                u,
            )
        };
    lemma_same_count(a, b);
    lemma_choices(logits, x.tokens@, x.ids@, y.tokens@, y.ids@);
    assert(values(f).len() == f.len());
    assert(values(g).len() == g.len());
    let c = with_frames(all_values(a.codes@), p.active@, values(f));
    let d = with_frames(all_values(b.codes@), q.active@, values(g));
    lemma_in_order(p.batch.done@, p.active@);
    assert(all_values(a.codes@).len() == a.codes@.len());
    lemma_counts_grow(all_values(a.codes@), all_values(b.codes@), p.active@, values(f), values(g));
    lemma_proceed(a, b, x, y, c, d, t, u);
}

/// A reply leads batches that are alike to the same.
#[verifier::spinoff_prover]
proof fn lemma_batches(a: BatchSynthesis, b: BatchSynthesis, reply: Reply, t: BatchTurn, u: BatchTurn)
    requires
        syntheses_alike(a, b),
        decides(a, reply),
        batch_leads(a, reply, t),
        batch_leads(b, reply, u),
    ensures
        batch_turns_alike(t, u),
{
    reveal(batch_leads);
    lemma_same_count(a, b);
    match (a.stage, b.stage) {
        (BatchStage::Prompts(p), BatchStage::Prompts(q)) => {
            let v = choose|v: PromptTurn| #[trigger]
                p.steps(reply, v) && match v {
                    PromptTurn::Ask(p, ask) => t == BatchTurn::Ask(
                        BatchSynthesis { stage: BatchStage::Prompts(p), ..a },
                        ask,
                    ),
                    PromptTurn::Built { embeds, ids } => {
                        &&& t matches BatchTurn::Ask(next, ask)
                        &&& next == (BatchSynthesis { stage: next.stage, ..a })
                        &&& next.stage matches BatchStage::Starting(s)
                        &&& BatchStart::starts(
                            embeds@,
                            ids,
                            greatest(a.limits@),
                            false,
                            a.device,
                            (s, ask),
                        )
                    },
                };
            let w = choose|w: PromptTurn| #[trigger]
                q.steps(reply, w) && match w {
                    PromptTurn::Ask(q, ask) => u == BatchTurn::Ask(
                        BatchSynthesis { stage: BatchStage::Prompts(q), ..b },
                        ask,
                    ),
                    PromptTurn::Built { embeds, ids } => {
                        &&& u matches BatchTurn::Ask(next, ask)
                        &&& next == (BatchSynthesis { stage: next.stage, ..b })
                        &&& next.stage matches BatchStage::Starting(s)
                        &&& BatchStart::starts(
                            embeds@,
                            ids,
                            greatest(b.limits@),
                            false,
                            b.device,
                            (s, ask),
                        )
                    },
                };
            lemma_prompts(p, q, reply, v, w);
        },
        (BatchStage::Starting(p), BatchStage::Starting(q)) => {
            let v = choose|v: BatchStartTurn| #[trigger]
                p.steps(reply, v) && match v {
                    BatchStartTurn::Ask(p, ask) => t == BatchTurn::Ask(
                        BatchSynthesis { stage: BatchStage::Starting(p), ..a },
                        ask,
                    ),
                    BatchStartTurn::Ready(ready) => a.readies(ready, t),
                };
            let w = choose|w: BatchStartTurn| #[trigger]
                q.steps(reply, w) && match w {
                    BatchStartTurn::Ask(q, ask) => u == BatchTurn::Ask(
                        BatchSynthesis { stage: BatchStage::Starting(q), ..b },
                        ask,
                    ),
                    BatchStartTurn::Ready(ready) => b.readies(ready, u),
                };
            lemma_starts(p, q, reply, v, w);
        },
        (BatchStage::First { .. }, BatchStage::First { .. }) => {
            lemma_open(a, b, reply->Tensor_0, t, u);
        },
        (BatchStage::Playing(p), BatchStage::Playing(q)) => {
            let v = choose|v: RoundTurn| #[trigger]
                p.steps(reply, v) && match v {
                    RoundTurn::Ask(p, ask) => t == BatchTurn::Ask(
                        BatchSynthesis { stage: BatchStage::Playing(p), ..a },
                        ask,
                    ),
                    RoundTurn::Played(p) => {
                        &&& t matches BatchTurn::Ask(next, Request::Suppress(logits))
                        &&& next == (BatchSynthesis { stage: BatchStage::Choosing(p), ..a })
                        &&& are_logits(grid(p.logits), grid(logits))
                    },
                };
            let w = choose|w: RoundTurn| #[trigger]
                q.steps(reply, w) && match w {
                    RoundTurn::Ask(q, ask) => u == BatchTurn::Ask(
                        BatchSynthesis { stage: BatchStage::Playing(q), ..b },
                        ask,
                    ),
                    RoundTurn::Played(q) => {
                        &&& u matches BatchTurn::Ask(next, Request::Suppress(logits))
                        &&& next == (BatchSynthesis { stage: BatchStage::Choosing(q), ..b })
                        &&& are_logits(grid(q.logits), grid(logits))
                    },
                };
            lemma_rounds(p, q, reply, v, w);
        },
        (BatchStage::Choosing(_), BatchStage::Choosing(_)) => {
            lemma_choose(a, b, reply->Tensor_0, t, u);
        },
        (BatchStage::Decoding(_), BatchStage::Decoding(_)) => {
            let x = t->Ask_0.stage->Reading_results;
            let y = u->Ask_0.stage->Reading_results;
            assert(silent(a.codes@.len(), x@));
            assert(silent(b.codes@.len(), y@));
            assert forall|i: int| 0 <= i < x@.len() implies same_audio(#[trigger] x@[i], y@[i]) by {
                assert(x@[i].samples@.len() == 0);
                assert(y@[i].samples@.len() == 0);
                assert(x@[i].samples@ =~= y@[i].samples@);
            }
        },
        _ => {},
    }
}

/// A run of the synthesis of a batch.
pub struct BatchRun {
    /// The state before each reply.
    pub states: Seq<BatchSynthesis>,
    /// What was asked behind each reply but the last one.
    pub asks: Seq<Request>,
    pub replies: Seq<Reply>,
    pub audio: Vec<AudioBuffer>,
}

impl BatchRun {
    /// Whether each step is one of the synthesis, and the last one ends it.
    pub open spec fn wf(self) -> bool {
        let n = self.replies.len() as int;
        &&& n > 0
        &&& self.states.len() == n
        &&& self.asks.len() == n - 1
        &&& forall|i: int|
            0 <= i < n - 1 ==> batch_leads(
                self.states[i],
                #[trigger] self.replies[i],
                BatchTurn::Ask(self.states[i + 1], self.asks[i]),
            )
        &&& batch_leads(self.states[n - 1], self.replies[n - 1], BatchTurn::Done(self.audio))
    }

    /// Whether all logits that tokens are chosen from are such that one choice is the
    /// greatest.
    pub open spec fn is_decided(self) -> bool {
        forall|i: int| 0 <= i < self.replies.len() ==> decides(self.states[i], #[trigger] self.replies[i])
    }
}

/// Runs that start alike stay alike.
proof fn lemma_batches_stay_alike(a: BatchRun, b: BatchRun, k: int)
    requires
        a.wf(),
        b.wf(),
        a.is_decided(),
        syntheses_alike(a.states[0], b.states[0]),
        same_replies(a.replies, b.replies),
        0 <= k < a.replies.len(),
        k < b.replies.len(),
    ensures
        syntheses_alike(a.states[k], b.states[k]),
    decreases k,
{
    if k > 0 {
        lemma_batches_stay_alike(a, b, k - 1);
        let t = BatchTurn::Ask(a.states[k - 1 + 1], a.asks[k - 1]);
        let u = BatchTurn::Ask(b.states[k - 1 + 1], b.asks[k - 1]);
        assert(a.replies[k - 1] == b.replies[k - 1]);
        assert(decides(a.states[k - 1], a.replies[k - 1]));
        assert(batch_leads(a.states[k - 1], a.replies[k - 1], t));
        assert(batch_leads(b.states[k - 1], b.replies[k - 1], u));
        lemma_batches(a.states[k - 1], b.states[k - 1], a.replies[k - 1], t, u);
    }
}

/// Runs that start alike and get the same replies come to the same.
proof fn lemma_same_batch_end(a: BatchRun, b: BatchRun)
    requires
        a.wf(),
        b.wf(),
        a.is_decided(),
        syntheses_alike(a.states[0], b.states[0]),
        same_replies(a.replies, b.replies),
    ensures
        a.replies == b.replies,
        all_same_audio(a.audio@, b.audio@),
{
    let n = a.replies.len() as int;
    let m = b.replies.len() as int;
    let k = if n <= m {
        n - 1
    } else {
        m - 1
    };
    lemma_batches_stay_alike(a, b, k);
    let t = if n <= m {
        BatchTurn::Done(a.audio)
    } else {
        BatchTurn::Ask(a.states[k + 1], a.asks[k])
    };
    let u = if m <= n {
        BatchTurn::Done(b.audio)
    } else {
        BatchTurn::Ask(b.states[k + 1], b.asks[k])
    };
    assert(a.replies[k] == b.replies[k]);
    assert(decides(a.states[k], a.replies[k]));
    assert(batch_leads(a.states[k], a.replies[k], t));
    assert(batch_leads(b.states[k], b.replies[k], u));
    lemma_batches(a.states[k], b.states[k], a.replies[k], t, u);
    assert(a.replies =~= b.replies);
}

/// Batches of the same texts start alike.
proof fn lemma_batches_start_alike(
    model: Qwen3TTS,
    requests: Seq<BatchRequest>,
    prompts: Seq<Option<&VoiceClonePrompt>>,
    t: BatchTurn,
    u: BatchTurn,
)
    requires
        requests.len() > 1,
        model.starts_batch(requests, prompts, t),
        model.starts_batch(requests, prompts, u),
    ensures
        batch_turns_alike(t, u),
{
    let p = t->Ask_0.stage->Prompts_0;
    let q = u->Ask_0.stage->Prompts_0;
    assert forall|i: int| 0 <= i < p.items@.len() implies (#[trigger] p.items@[i]).embedding
        == q.items@[i].embedding by {}
    if clones(p.items@) {
        let i = choose|i: int| 0 <= i < p.items@.len() && (#[trigger] p.items@[i]).embedding is Some;
        assert(q.items@[i].embedding is Some);
    }
    if clones(q.items@) {
        let i = choose|i: int| 0 <= i < q.items@.len() && (#[trigger] q.items@[i]).embedding is Some;
        assert(p.items@[i].embedding is Some);
    }
    assert(values(p.ids@) =~= values(q.ids@));
}

/// Two calls on the same texts, languages and voices give the same result, whatever
/// the sampling settings of the requests: where the model replies the same as long as
/// both runs go on, both take equally many replies and give the same audio for each
/// text. The logits that tokens are chosen from are those of a CPU, where the choice
/// among equal ones is settled.
pub proof fn law_same_batch(
    model: Qwen3TTS,
    requests: Seq<BatchRequest>,
    others: Seq<BatchRequest>,
    prompts: Seq<Option<&VoiceClonePrompt>>,
    a: BatchRun,
    b: BatchRun,
    first: Request,
    other: Request,
)
    requires
        requests.len() > 1,
        requests_alike(requests, others),
        a.wf(),
        b.wf(),
        model.starts_batch(requests, prompts, BatchTurn::Ask(a.states[0], first)),
        model.starts_batch(others, prompts, BatchTurn::Ask(b.states[0], other)),
        a.is_decided(),
        same_replies(a.replies, b.replies),
    ensures
        a.replies == b.replies,
        all_same_audio(a.audio@, b.audio@),
{
    law_greedy_start(model, requests, others, prompts, BatchTurn::Ask(a.states[0], first));
    lemma_batches_start_alike(
        model,
        others,
        prompts,
        BatchTurn::Ask(a.states[0], first),
        BatchTurn::Ask(b.states[0], other),
    );
    lemma_same_batch_end(a, b);
}

} // verus!
