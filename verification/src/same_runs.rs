//! Equal calls come to the same: the same seed, the same replies, the same audio.
use crate::audio::AudioBuffer;
use crate::clone::{ClonePhase, ClonePrefill, CloneTurn, Reached, Reference, VoiceClonePrompt};
use crate::code_loop::{CodeLoop, CodeTurn};
use crate::codes::{read_rows, transferred, values, FrameCodes};
use crate::generator::{GenTurn, Generator};
use crate::grid::{all_cells, cells_of};
use crate::model::{starts_clone, starts_with, Qwen3TTS};
use crate::options::{GenerationConfig, SynthesisOptions, SAMPLE_RATE};
use crate::prefill::{PrefillPhase, PrefillTurn, Prefilled, Voice};
use crate::request::{Language, Reply, Request};
use crate::runs::{frame_cells, same_replies};
use crate::synth::{decoded_frames, Cut, Stage, SynthTurn, Synthesis};
use crate::tensor::{grid, grids};
use crate::trailing::TrailingText;
use crate::voice_prompt::same_audio;
use candle_core::{Device, Tensor};
use vstd::prelude::*;

verus! {

/// That a reply leads to a turn.
#[verifier::opaque]
pub open spec fn synthesis_leads(s: Synthesis, reply: Reply, turn: SynthTurn) -> bool {
    s.wf() && s.steps(reply, turn)
}

/// A run of a synthesis.
pub struct SynthRun {
    /// The state before each reply.
    pub states: Seq<Synthesis>,
    /// What was asked behind each reply but the last one.
    pub asks: Seq<Request>,
    pub replies: Seq<Reply>,
    pub audio: AudioBuffer,
    pub codes: FrameCodes,
}

impl SynthRun {
    /// Whether each step is one of the synthesis, and the last one ends it.
    pub open spec fn wf(self) -> bool {
        let n = self.replies.len() as int;
        &&& n > 0
        &&& self.states.len() == n
        &&& self.asks.len() == n - 1
        &&& forall|i: int|
            0 <= i < n - 1 ==> synthesis_leads(
                self.states[i],
                #[trigger] self.replies[i],
                SynthTurn::Ask(self.states[i + 1], self.asks[i]),
            )
        &&& synthesis_leads(
            self.states[n - 1],
            self.replies[n - 1],
            SynthTurn::Done { audio: self.audio, codes: self.codes },
        )
    }
}

/// Whether both voices are preset, or both described.
pub open spec fn voices_alike(a: Voice, b: Voice) -> bool {
    a is Preset <==> b is Preset
}

/// Whether the same of a trailing text is waited for.
pub open spec fn texts_alike(a: TrailingText, b: TrailingText) -> bool {
    match (a, b) {
        (TrailingText::Projecting, TrailingText::Projecting) => true,
        (TrailingText::Ending(_), TrailingText::Ending(_)) => true,
        (TrailingText::Padding { .. }, TrailingText::Padding { .. }) => true,
        _ => false,
    }
}

/// Whether the same of a prompt is waited for.
pub open spec fn phases_alike(a: PrefillPhase, b: PrefillPhase) -> bool {
    match (a, b) {
        (PrefillPhase::Encoding(v), PrefillPhase::Encoding(w)) => voices_alike(v, w),
        (PrefillPhase::Describing { ids: i, .. }, PrefillPhase::Describing { ids: j, .. }) => i == j,
        (PrefillPhase::Trailing { text: t, .. }, PrefillPhase::Trailing { text: u, .. }) => {
            texts_alike(t, u)
        },
        (PrefillPhase::Caching { .. }, PrefillPhase::Caching { .. }) => true,
        (PrefillPhase::Running { .. }, PrefillPhase::Running { .. }) => true,
        _ => false,
    }
}

/// Whether two prompts have come to the same text under the same configuration.
pub open spec fn reached_alike(a: Reached, b: Reached) -> bool {
    a.config == b.config && a.ids@ == b.ids@
}

/// Whether the same of the prompt of a cloned voice is waited for.
pub open spec fn clone_phases_alike(a: ClonePhase, b: ClonePhase) -> bool {
    match (a, b) {
        (ClonePhase::Encoding, ClonePhase::Encoding) => true,
        (
            ClonePhase::Caching { config: c, ids: i, .. },
            ClonePhase::Caching { config: d, ids: j, .. },
        ) => c == d && i@ == j@,
        (
            ClonePhase::Running { config: c, ids: i },
            ClonePhase::Running { config: d, ids: j },
        ) => c == d && i@ == j@,
        (ClonePhase::Semantic(x), ClonePhase::Semantic(y)) => reached_alike(x, y),
        (
            ClonePhase::Acoustic { at: x, group: g, .. },
            ClonePhase::Acoustic { at: y, group: h, .. },
        ) => reached_alike(x, y) && g == h,
        (ClonePhase::Prompting(x), ClonePhase::Prompting(y)) => reached_alike(x, y),
        (ClonePhase::Masking { at: x, .. }, ClonePhase::Masking { at: y, .. }) => reached_alike(x, y),
        (ClonePhase::Layers { at: x, .. }, ClonePhase::Layers { at: y, .. }) => reached_alike(x, y),
        (ClonePhase::Norm { at: x, .. }, ClonePhase::Norm { at: y, .. }) => reached_alike(x, y),
        (ClonePhase::Head { config: c, .. }, ClonePhase::Head { config: d, .. }) => c == d,
        (ClonePhase::Padding { config: c, .. }, ClonePhase::Padding { config: d, .. }) => c == d,
        (ClonePhase::Trailing { at: x, text: t }, ClonePhase::Trailing { at: y, text: u }) => {
            reached_alike(x, y) && texts_alike(t, u)
        },
        _ => false,
    }
}

/// Whether two references hold the same codes and texts.
pub open spec fn references_alike(a: Option<Reference>, b: Option<Reference>) -> bool {
    match (a, b) {
        (Some(n), Some(m)) => n.codes == m.codes && n.text_ids@ == m.text_ids@,
        (None, None) => true,
        _ => false,
    }
}

/// Whether two loops wait for the same and have the same frames.
pub open spec fn loops_alike(a: CodeLoop, b: CodeLoop) -> bool {
    &&& a.generator.config == b.generator.config
    &&& a.generator.phase == b.generator.phase
    &&& frame_cells(a.frames@) == frame_cells(b.frames@)
}

/// Whether two syntheses have come equally far.
pub open spec fn alike(a: Synthesis, b: Synthesis) -> bool {
    &&& references_alike(a.reference, b.reference)
    &&& match (a.stage, b.stage) {
        (Stage::Prefill(p), Stage::Prefill(q)) => p.config == q.config && phases_alike(
            p.phase,
            q.phase,
        ),
        (Stage::Clone(p), Stage::Clone(q)) => {
            &&& p.options == q.options
            &&& references_alike(p.reference, q.reference)
            &&& clone_phases_alike(p.phase, q.phase)
        },
        (Stage::Generating(l), Stage::Generating(m)) => loops_alike(l, m),
        (Stage::Decoding { codes: c, cut: x }, Stage::Decoding { codes: d, cut: y }) => {
            values(c@) == values(d@) && x == y
        },
        (Stage::Reading { codes: c, cut: x }, Stage::Reading { codes: d, cut: y }) => {
            values(c@) == values(d@) && x == y
        },
        _ => false,
    }
}

/// Frames with the same codes hold the same codes taken together.
proof fn lemma_all_cells(a: Seq<Tensor>, b: Seq<Tensor>)
    requires
        frame_cells(a) == frame_cells(b),
    ensures
        all_cells(grids(a)) == all_cells(grids(b)),
        a.len() == b.len(),
    decreases a.len(),
{
    assert(frame_cells(a).len() == a.len());
    assert(frame_cells(b).len() == b.len());
    if a.len() > 0 {
        assert(frame_cells(a.drop_last()) =~= frame_cells(a).drop_last());
        assert(frame_cells(b.drop_last()) =~= frame_cells(b).drop_last());
        lemma_all_cells(a.drop_last(), b.drop_last());
        assert(grids(a).drop_last() =~= grids(a.drop_last()));
        assert(grids(b).drop_last() =~= grids(b.drop_last()));
        assert(grids(a).last() == grid(a.last()));
        assert(grids(b).last() == grid(b.last()));
        assert(frame_cells(a)[a.len() - 1] == frame_cells(b)[a.len() - 1]);
    }
}

/// Frames with the same codes are transferred to the same codes.
proof fn lemma_same_codes(a: Seq<Tensor>, b: Seq<Tensor>, c: Seq<Vec<u32>>, d: Seq<Vec<u32>>)
    requires
        frame_cells(a) == frame_cells(b),
        transferred(a, c),
        transferred(b, d),
    ensures
        values(c) == values(d),
{
    lemma_all_cells(a, b);
    assert forall|f: int| 0 <= f < c.len() implies #[trigger] values(c)[f] == values(d)[f] by {
        assert(cells_of(c[f]@) == cells_of(d[f]@));
        assert(cells_of(c[f]@).len() == c[f]@.len());
        assert(cells_of(d[f]@).len() == d[f]@.len());
        assert forall|q: int| 0 <= q < c[f]@.len() implies c[f]@[q] == d[f]@[q] by {
            assert(cells_of(c[f]@)[q] == c[f]@[q]);
            assert(cells_of(d[f]@)[q] == d[f]@[q]);
        }
        assert(c[f]@ =~= d[f]@);
    }
    assert(values(c) =~= values(d));
}

/// A reply leads loops that are alike to the same.
proof fn lemma_loops(a: CodeLoop, b: CodeLoop, reply: Reply, t: CodeTurn, u: CodeTurn)
    requires
        a.wf(),
        b.wf(),
        loops_alike(a, b),
        a.steps(reply, t),
        b.steps(reply, u),
    ensures
        match (t, u) {
            (CodeTurn::Ask(x, _), CodeTurn::Ask(y, _)) => loops_alike(x, y),
            (CodeTurn::Codes(c), CodeTurn::Codes(d)) => values(c@) == values(d@),
            _ => false,
        },
{
    let (g, s) = choose|g: Generator, s: GenTurn| #[trigger]
        a.generator.steps(reply, g, s) && a.follows(g, s, t);
    let (h, v) = choose|h: Generator, v: GenTurn| #[trigger]
        b.generator.steps(reply, h, v) && b.follows(h, v, u);
    assert(frame_cells(a.frames@).len() == a.frames@.len());
    assert(frame_cells(b.frames@).len() == b.frames@.len());
    match (t, u) {
        (CodeTurn::Ask(x, _), CodeTurn::Ask(y, _)) => {
            if s is Frame {
                assert(x.frames@ =~= a.frames@.push(x.frames@.last()));
                assert(y.frames@ =~= b.frames@.push(y.frames@.last()));
                assert(frame_cells(x.frames@) =~= frame_cells(a.frames@).push(
                    frame_cells(x.frames@).last(),
                ));
                assert(frame_cells(y.frames@) =~= frame_cells(x.frames@));
            }
        },
        (CodeTurn::Codes(c), CodeTurn::Codes(d)) => {
            lemma_same_codes(a.frames@, b.frames@, c@, d@);
        },
        _ => {},
    }
}

/// Loops that have just started behind prompts under one configuration are alike.
proof fn lemma_begin(a: Synthesis, b: Synthesis, f: Prefilled, g: Prefilled, t: SynthTurn, u: SynthTurn)
    requires
        a.begins(f, t),
        b.begins(g, u),
        f.config == g.config,
        references_alike(a.reference, b.reference),
    ensures
        t is Ask,
        u is Ask,
        alike(t->Ask_0, u->Ask_0),
{
    let x = t->Ask_0.stage->Generating_0;
    let y = u->Ask_0.stage->Generating_0;
    assert(frame_cells(x.frames@) =~= Seq::<Seq<int>>::empty());
    assert(frame_cells(y.frames@) =~= Seq::<Seq<int>>::empty());
}

/// A reply leads prompts of cloned voices that are alike to the same.
proof fn lemma_clones(a: ClonePrefill, b: ClonePrefill, reply: Reply, t: CloneTurn, u: CloneTurn)
    requires
        a.options == b.options,
        references_alike(a.reference, b.reference),
        clone_phases_alike(a.phase, b.phase),
        a.steps(reply, t),
        b.steps(reply, u),
    ensures
        match (t, u) {
            (CloneTurn::Ask(x, _), CloneTurn::Ask(y, _)) => {
                &&& x.options == y.options
                &&& references_alike(x.reference, y.reference)
                &&& clone_phases_alike(x.phase, y.phase)
            },
            (CloneTurn::Ready(f), CloneTurn::Ready(g)) => f.config == g.config,
            _ => false,
        },
{
}

/// The generated frames lead syntheses that are alike to the same.
proof fn lemma_generated(
    a: Synthesis,
    b: Synthesis,
    c: FrameCodes,
    d: FrameCodes,
    t: SynthTurn,
    u: SynthTurn,
)
    requires
        references_alike(a.reference, b.reference),
        values(c@) == values(d@),
        a.generated(c, t),
        b.generated(d, u),
    ensures
        turns_alike(t, u),
{
    assert(values(c@).len() == c@.len());
    assert(values(d@).len() == d@.len());
    if let Some(n) = a.reference {
        let m = b.reference->0;
        let x = choose|x: Seq<Vec<u32>>|
            {
                &&& #[trigger] read_rows(grid(n.codes), x)
                &&& if c@.len() == 0 {
                    &&& t matches SynthTurn::Done { audio, codes: k }
                    &&& k == c
                    &&& audio.samples@.len() == 0
                    &&& audio.sample_rate == SAMPLE_RATE
                } else {
                    let all = decoded_frames(values(x), values(c@), n.text_ids@.len());
                    let cut = Cut { ref_len: x.len() as usize, total: all.len() as usize };
                    a.decodes(all, c, Some(cut), t)
                }
            };
        let y = choose|y: Seq<Vec<u32>>|
            {
                &&& #[trigger] read_rows(grid(m.codes), y)
                &&& if d@.len() == 0 {
                    &&& u matches SynthTurn::Done { audio, codes: k }
                    &&& k == d
                    &&& audio.samples@.len() == 0
                    &&& audio.sample_rate == SAMPLE_RATE
                } else {
                    let all = decoded_frames(values(y), values(d@), m.text_ids@.len());
                    let cut = Cut { ref_len: y.len() as usize, total: all.len() as usize };
                    b.decodes(all, d, Some(cut), u)
                }
            };
        assert(values(x).len() == x.len());
        assert(values(y).len() == y.len());
        assert(x.len() == y.len());
        if c@.len() == 0 {
            let p = t->Done_audio;
            let q = u->Done_audio;
            assert(p.samples@ =~= q.samples@);
        } else {
            assert(decoded_frames(values(x), values(c@), n.text_ids@.len()).len()
                == decoded_frames(values(y), values(d@), m.text_ids@.len()).len());
        }
    }
}

/// Whether two turns come to the same.
pub open spec fn turns_alike(t: SynthTurn, u: SynthTurn) -> bool {
    match (t, u) {
        (SynthTurn::Ask(x, _), SynthTurn::Ask(y, _)) => alike(x, y),
        (
            SynthTurn::Done { audio: x, codes: c },
            SynthTurn::Done { audio: y, codes: d },
        ) => same_audio(x, y) && values(c@) == values(d@),
        _ => false,
    }
}

/// A reply leads syntheses that are alike to the same.
#[verifier::spinoff_prover]
proof fn lemma_alike(a: Synthesis, b: Synthesis, reply: Reply, t: SynthTurn, u: SynthTurn)
    requires
        alike(a, b),
        synthesis_leads(a, reply, t),
        synthesis_leads(b, reply, u),
    ensures
        turns_alike(t, u),
{
    reveal(synthesis_leads);
    match (a.stage, b.stage) {
        (Stage::Prefill(p), Stage::Prefill(q)) => {
            let v = choose|v: PrefillTurn| #[trigger]
                p.steps(reply, v) && match v {
                    PrefillTurn::Ask(p, ask) => t == SynthTurn::Ask(
                        Synthesis { stage: Stage::Prefill(p), ..a },
                        ask,
                    ),
                    PrefillTurn::Ready(f) => a.begins(f, t),
                };
            let w = choose|w: PrefillTurn| #[trigger]
                q.steps(reply, w) && match w {
                    PrefillTurn::Ask(q, ask) => u == SynthTurn::Ask(
                        Synthesis { stage: Stage::Prefill(q), ..b },
                        ask,
                    ),
                    PrefillTurn::Ready(f) => b.begins(f, u),
                };
            match (v, w) {
                (PrefillTurn::Ready(f), PrefillTurn::Ready(g)) => {
                    lemma_begin(a, b, f, g, t, u);
                },
                _ => {},
            }
        },
        (Stage::Clone(p), Stage::Clone(q)) => {
            let v = choose|v: CloneTurn| #[trigger]
                p.steps(reply, v) && match v {
                    CloneTurn::Ask(p, ask) => t == SynthTurn::Ask(
                        Synthesis { stage: Stage::Clone(p), ..a },
                        ask,
                    ),
                    CloneTurn::Ready(f) => a.begins(f, t),
                };
            let w = choose|w: CloneTurn| #[trigger]
                q.steps(reply, w) && match w {
                    CloneTurn::Ask(q, ask) => u == SynthTurn::Ask(
                        Synthesis { stage: Stage::Clone(q), ..b },
                        ask,
                    ),
                    CloneTurn::Ready(f) => b.begins(f, u),
                };
            lemma_clones(p, q, reply, v, w);
            match (v, w) {
                (CloneTurn::Ready(f), CloneTurn::Ready(g)) => {
                    lemma_begin(a, b, f, g, t, u);
                },
                _ => {},
            }
        },
        (Stage::Generating(l), Stage::Generating(m)) => {
            let v = choose|v: CodeTurn| #[trigger]
                l.steps(reply, v) && match v {
                    CodeTurn::Ask(l, ask) => t == SynthTurn::Ask(
                        Synthesis { stage: Stage::Generating(l), ..a },
                        ask,
                    ),
                    CodeTurn::Codes(codes) => a.generated(codes, t),
                };
            let w = choose|w: CodeTurn| #[trigger]
                m.steps(reply, w) && match w {
                    CodeTurn::Ask(m, ask) => u == SynthTurn::Ask(
                        Synthesis { stage: Stage::Generating(m), ..b },
                        ask,
                    ),
                    CodeTurn::Codes(codes) => b.generated(codes, u),
                };
            lemma_loops(l, m, reply, v, w);
            match (v, w) {
                (CodeTurn::Codes(c), CodeTurn::Codes(d)) => {
                    lemma_generated(a, b, c, d, t, u);
                },
                _ => {},
            }
        },
        _ => {},
    }
}

/// Runs that start alike stay alike.
proof fn lemma_stay_alike(a: SynthRun, b: SynthRun, k: int)
    requires
        a.wf(),
        b.wf(),
        alike(a.states[0], b.states[0]),
        same_replies(a.replies, b.replies),
        0 <= k < a.replies.len(),
        k < b.replies.len(),
    ensures
        alike(a.states[k], b.states[k]),
    decreases k,
{
    if k > 0 {
        lemma_stay_alike(a, b, k - 1);
        let t = SynthTurn::Ask(a.states[k - 1 + 1], a.asks[k - 1]);
        let u = SynthTurn::Ask(b.states[k - 1 + 1], b.asks[k - 1]);
        assert(a.replies[k - 1] == b.replies[k - 1]);
        assert(synthesis_leads(a.states[k - 1], a.replies[k - 1], t));
        assert(synthesis_leads(b.states[k - 1], b.replies[k - 1], u));
        lemma_alike(a.states[k - 1], b.states[k - 1], a.replies[k - 1], t, u);
    }
}

/// Runs that start alike and get the same replies come to the same.
proof fn lemma_same_end(a: SynthRun, b: SynthRun)
    requires
        a.wf(),
        b.wf(),
        alike(a.states[0], b.states[0]),
        same_replies(a.replies, b.replies),
    ensures
        a.replies == b.replies,
        same_audio(a.audio, b.audio),
        values(a.codes@) == values(b.codes@),
{
    let n = a.replies.len() as int;
    let m = b.replies.len() as int;
    let k = if n <= m {
        n - 1
    } else {
        m - 1
    };
    lemma_stay_alike(a, b, k);
    let t = if n <= m {
        SynthTurn::Done { audio: a.audio, codes: a.codes }
    } else {
        SynthTurn::Ask(a.states[k + 1], a.asks[k])
    };
    let u = if m <= n {
        SynthTurn::Done { audio: b.audio, codes: b.codes }
    } else {
        SynthTurn::Ask(b.states[k + 1], b.asks[k])
    };
    assert(a.replies[k] == b.replies[k]);
    assert(synthesis_leads(a.states[k], a.replies[k], t));
    assert(synthesis_leads(b.states[k], b.replies[k], u));
    lemma_alike(a.states[k], b.states[k], a.replies[k], t, u);
    assert(a.replies =~= b.replies);
}

/// Equal calls give equal results. The configuration, with the seed in it, goes with
/// every request to sample; where the model then replies the same as long as both
/// runs go on, both take equally many replies and give the same audio and the same
/// frames. This is for preset speakers and for described voices.
pub proof fn law_equal_results(
    a: SynthRun,
    b: SynthRun,
    device: Device,
    text: Seq<char>,
    config: GenerationConfig,
    first: Request,
    other: Request,
)
    requires
        a.wf(),
        b.wf(),
        starts_with(device, text, config, (a.states[0], first)),
        starts_with(device, text, config, (b.states[0], other)),
        voices_alike(
            a.states[0].stage->Prefill_0.phase->Encoding_0,
            b.states[0].stage->Prefill_0.phase->Encoding_0,
        ),
        same_replies(a.replies, b.replies),
    ensures
        a.replies == b.replies,
        same_audio(a.audio, b.audio),
        values(a.codes@) == values(b.codes@),
{
    lemma_same_end(a, b);
}

/// Equal calls give equal results for cloned voices too, with reference audio or
/// without.
pub proof fn law_equal_clones(
    a: SynthRun,
    b: SynthRun,
    model: Qwen3TTS,
    text: Seq<char>,
    prompt: VoiceClonePrompt,
    language: Language,
    options: SynthesisOptions,
    first: Request,
    other: Request,
)
    requires
        a.wf(),
        b.wf(),
        starts_clone(model, text, prompt, language, options, (a.states[0], first)),
        starts_clone(model, text, prompt, language, options, (b.states[0], other)),
        same_replies(a.replies, b.replies),
    ensures
        a.replies == b.replies,
        same_audio(a.audio, b.audio),
        values(a.codes@) == values(b.codes@),
{
    lemma_same_end(a, b);
}

} // verus!
