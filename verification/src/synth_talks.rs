//! What the synthesis of a text asks for, from the text to the waveform: each request,
//! told by what was asked and replied before.
use crate::audio::AudioBuffer;
use crate::clone::{ClonePhase, ClonePrefill, CloneTurn, Reached, Reference, VoiceClonePrompt};
use crate::code_loop::{CodeLoop, CodeTurn};
use crate::codes::{codes_grid, read_rows, transferred, values, FrameCodes, CODEBOOKS};
use crate::generator::{GenTurn, Generator};
use crate::grid::{cells_of, DType, Grid, Location};
use crate::loop_talks::{
    are_raw, comes_to, follows, has_come, has_context, is_context_end, is_hidden, is_spoken,
    lemma_begins, lemma_comes, lemma_goes_on, prompt_positions,
};
use crate::model::{starts_as, starts_clone, starts_with, Qwen3TTS};
use crate::options::{GenerationConfig, SynthesisOptions};
use crate::prefill::{Prefill, PrefillPhase, PrefillTurn, Prefilled, Role, Voice};
use crate::request::{Language, Reply, Request};
use crate::runs::lemma_cut_again;
use crate::same_runs::synthesis_leads;
use crate::synth::{decoded_frames, Cut, Stage, SynthTurn, Synthesis};
use crate::talks::{is_rest_of, is_task, lemma_count_grows, lemma_latest, lemma_nth, Talk, Task};
use crate::tensor::{device_location, grid, grids, is_converted, is_sum, tensor_cells, tensor_dims};
use crate::trailing::{TrailingText, TrailingTurn};
use candle_core::{Device, Tensor};
use vstd::prelude::*;

verus! {

/// A synthesis as far as it has come, with what was asked and replied.
pub struct SynthTalk {
    /// The state in which each request waits for its reply.
    pub states: Seq<Synthesis>,
    pub talk: Talk,
}

impl SynthTalk {
    /// Whether each reply leads from one request to the next.
    pub open spec fn wf(self) -> bool {
        &&& self.states.len() == self.talk.asked.len()
        &&& self.talk.replies.len() + 1 == self.talk.asked.len()
        &&& self.states.last().wf()
        &&& forall|i: int|
            0 <= i < self.talk.replies.len() ==> synthesis_leads(
                self.states[i],
                #[trigger] self.talk.replies[i],
                SynthTurn::Ask(self.states[i + 1], self.talk.asked[i + 1]),
            )
    }
}

/// What a synthesis starts with.
pub enum Source {
    /// A preset speaker or a described voice.
    Voice(Voice),
    /// A voice to be cloned.
    Clone(ClonePrefill),
}

/// Whether no frame was generated before place `k`.
pub open spec fn is_quiet(talk: Talk, k: int) -> bool {
    &&& talk.count(k, Task::Step) == 0
    &&& talk.count(k, Task::Sample) == 0
    &&& talk.count(k, Task::Acoustic) == 0
}

/// Whether the talker was not run before place `k`, and no in-context prompt laid out.
pub open spec fn is_still(talk: Talk, k: int) -> bool {
    &&& is_quiet(talk, k)
    &&& talk.latest(k, Task::Context) < 0
}

/// That the text behind the first of these tokens is being built at place `k`.
pub open spec fn is_building(talk: Talk, k: int, ids: Seq<u32>, text: TrailingText) -> bool {
    match text {
        TrailingText::Projecting => {
            &&& ids.len() > 1
            &&& talk.asked[k] matches Request::ProjectText(rest)
            &&& rest@ == ids.subrange(1, ids.len() as int)
        },
        TrailingText::Ending(projected) => {
            &&& talk.asked[k] is TtsEos
            &&& projected is Some <==> ids.len() > 1
            &&& projected matches Some(p) ==> {
                &&& 0 < k
                &&& talk.asked[k - 1] matches Request::ProjectText(rest)
                &&& rest@ == ids.subrange(1, ids.len() as int)
                &&& talk.replies[k - 1] == Reply::Tensor(p)
            }
        },
        TrailingText::Padding { trailing, len } => {
            &&& talk.asked[k] is TtsPad
            &&& is_rest_of(talk, k - 1, ids, trailing)
            &&& tensor_dims(trailing).len() > 1
            &&& len == tensor_dims(trailing)[1]
        },
    }
}

/// Building a text starts with its tokens.
pub proof fn lemma_building_starts(talk: Talk, k: int, ids: Seq<u32>, text: TrailingText)
    requires
        TrailingText::starts(ids, (text, talk.asked[k])),
    ensures
        is_building(talk, k, ids, text),
{
    if ids.len() > 1 {
        assert(ids.skip(1) =~= ids.subrange(1, ids.len() as int));
    }
}

/// A reply leads on in building a text.
pub proof fn lemma_building(talk: Talk, k: int, ids: Seq<u32>, text: TrailingText, turn: TrailingTurn)
    requires
        0 <= k,
        is_building(talk, k, ids, text),
        text.steps(talk.replies[k], turn),
        turn matches TrailingTurn::Ask(_, ask) ==> talk.asked[k + 1] == ask,
    ensures
        turn matches TrailingTurn::Ask(next, _) ==> is_building(talk, k + 1, ids, next),
        turn matches TrailingTurn::Built { trailing, len, pad } ==> {
            &&& 0 < k
            &&& talk.asked[k] is TtsPad
            &&& talk.replies[k] == Reply::Tensor(pad)
            &&& is_rest_of(talk, k - 1, ids, trailing)
            &&& tensor_dims(trailing).len() > 1
            &&& len == tensor_dims(trailing)[1]
        },
        talk.asked[k] is ProjectText || talk.asked[k] is TtsEos || talk.asked[k] is TtsPad,
{
}

/// That this is who speaks, with the description as the model tokenized it.
pub open spec fn is_role(talk: Talk, voice: Voice, role: Role) -> bool {
    match voice {
        Voice::Preset(speaker, language) => role == Role::Preset(speaker, language),
        Voice::Described(instruct, language) => {
            &&& role matches Role::Described(ids, l)
            &&& l == language
            &&& talk.asked[1] matches Request::Encode(text)
            &&& text@ == "<|im_start|>user\n"@ + instruct@ + "<|im_end|>\n"@
            &&& talk.replies[1] == Reply::Tokens(ids)
        },
    }
}

/// That the talker is run on the prompt of the text: its tokens, and who speaks.
pub open spec fn runs_prompt(talk: Talk, k: int, voice: Voice) -> bool {
    &&& talk.replies[0] matches Reply::Tokens(tokens)
    &&& match (voice, talk.asked[k]) {
        (Voice::Preset(s, l), Request::PrefillCustomVoice { ids, speaker, language }) => {
            ids@ == tokens@ && speaker == s && language == l
        },
        (
            Voice::Described(instruct, l),
            Request::PrefillVoiceDesign { ids, instruct_ids, language },
        ) => {
            &&& ids@ == tokens@
            &&& language == l
            &&& talk.asked[1] matches Request::Encode(text)
            &&& text@ == "<|im_start|>user\n"@ + instruct@ + "<|im_end|>\n"@
            &&& talk.replies[1] matches Reply::Tokens(described)
            &&& instruct_ids@ == described@
        },
        _ => false,
    }
}

/// That the prompt of a preset speaker or a described voice has come to what was asked
/// and replied.
pub open spec fn prompt_come(talk: Talk, k: int, voice: Voice, p: Prefill) -> bool {
    match p.phase {
        PrefillPhase::Encoding(v) => k == 0 && talk.asked[k] is Encode && v == voice,
        PrefillPhase::Describing { ids, language } => {
            &&& k == 1
            &&& talk.asked[k] matches Request::Encode(text)
            &&& voice matches Voice::Described(instruct, l)
            &&& text@ == "<|im_start|>user\n"@ + instruct@ + "<|im_end|>\n"@
            &&& l == language
            &&& talk.replies[0] == Reply::Tokens(ids)
            &&& is_still(talk, k)
        },
        PrefillPhase::Trailing { ids, role, text } => {
            &&& 0 < k
            &&& talk.replies[0] == Reply::Tokens(ids)
            &&& is_role(talk, voice, role)
            &&& is_still(talk, k)
            &&& is_building(talk, k, ids@, text)
        },
        PrefillPhase::Caching { ids, role, trailing, len, pad } => {
            &&& talk.asked[k] matches Request::NewCaches(size)
            &&& p.config.max_new_tokens + 256 <= usize::MAX ==> size == p.config.max_new_tokens + 256
            &&& talk.replies[0] == Reply::Tokens(ids)
            &&& is_role(talk, voice, role)
            &&& is_still(talk, k)
            &&& is_spoken(talk, k, trailing, pad)
            &&& len == tensor_dims(trailing)[1]
        },
        PrefillPhase::Running { trailing, len, pad } => {
            &&& runs_prompt(talk, k, voice)
            &&& is_still(talk, k)
            &&& is_spoken(talk, k, trailing, pad)
            &&& len == tensor_dims(trailing)[1]
        },
    }
}

/// A reply leads on in the prompt of a preset speaker or a described voice.
pub proof fn lemma_prompt(talk: Talk, k: int, voice: Voice, p: Prefill, turn: PrefillTurn)
    requires
        0 <= k,
        prompt_come(talk, k, voice, p),
        p.steps(talk.replies[k], turn),
        turn matches PrefillTurn::Ask(_, ask) ==> talk.asked[k + 1] == ask,
    ensures
        turn matches PrefillTurn::Ask(next, _) ==> prompt_come(talk, k + 1, voice, next) && next.config
            == p.config,
        turn matches PrefillTurn::Ready(f) ==> comes_to(talk, k + 1, f) && f.config == p.config,
        turn is Ask ==> !(talk.asked[k + 1] is EmbedToken),
{
    reveal_with_fuel(Talk::latest, 3);
    reveal_with_fuel(Talk::count, 3);
    match p.phase {
        PrefillPhase::Encoding(_) => {
            if let PrefillTurn::Ask(next, ask) = turn {
                if let PrefillPhase::Trailing { ids, text, .. } = next.phase {
                    lemma_building_starts(talk, k + 1, ids@, text);
                }
            }
        },
        PrefillPhase::Describing { .. } => {
            if let PrefillTurn::Ask(next, ask) = turn {
                if let PrefillPhase::Trailing { ids, text, .. } = next.phase {
                    lemma_building_starts(talk, k + 1, ids@, text);
                }
            }
        },
        PrefillPhase::Trailing { ids, role, text } => {
            let t = choose|t: TrailingTurn| #[trigger]
                text.steps(talk.replies[k], t) && match t {
                    TrailingTurn::Ask(text, ask) => turn == PrefillTurn::Ask(
                        Prefill { phase: PrefillPhase::Trailing { ids, role, text }, ..p },
                        ask,
                    ),
                    TrailingTurn::Built { trailing, len, pad } => turn == PrefillTurn::Ask(
                        Prefill {
                            phase: PrefillPhase::Caching { ids, role, trailing, len, pad },
                            ..p
                        },
                        Request::NewCaches(
                            (p.config.max_new_tokens + crate::options::CACHE_MARGIN) as usize,
                        ),
                    ),
                };
            lemma_building(talk, k, ids@, text, t);
        },
        _ => {},
    }
}


/// That the talker has come to this behind the prompt of a cloned voice.
pub open spec fn has_reached(talk: Talk, k: int, at: Reached) -> bool {
    &&& 0 < k
    &&& talk.replies[0] == Reply::Tokens(at.ids)
    &&& is_quiet(talk, k)
    &&& !has_context(talk, k)
    &&& is_hidden(talk, k, at.last_hidden)
    &&& are_raw(talk, k, at.logits)
    &&& talk.latest(k, Task::Prompt) >= 0
    &&& at.offset == prompt_positions(talk, k)
}

/// That a mask is asked for at place `k` behind an in-context prompt with positions, and
/// that the talker had come to this before.
pub open spec fn has_laid_out(
    talk: Talk,
    k: int,
    at: Reached,
    prompt: Tensor,
    len: usize,
    trailing: Tensor,
) -> bool {
    &&& has_reached(talk, k - 1, at)
    &&& talk.asked[k - 1] is IclPrompt
    &&& talk.replies[k - 1] == Reply::Pair(prompt, trailing)
    &&& tensor_dims(prompt).len() > 1
    &&& len == tensor_dims(prompt)[1]
    &&& len > 0
    &&& talk.asked[k] == (Request::CausalMask { len, offset: at.offset })
}

/// That all layers are asked to run on that prompt behind its mask.
pub open spec fn has_masked(
    talk: Talk,
    k: int,
    at: Reached,
    prompt: Tensor,
    len: usize,
    trailing: Tensor,
    mask: Tensor,
) -> bool {
    &&& has_laid_out(talk, k - 1, at, prompt, len, trailing)
    &&& talk.replies[k - 1] == Reply::Tensor(mask)
    &&& talk.asked[k] == (Request::Forward {
        input: prompt,
        mask: Some(mask),
        offset: at.offset,
    })
}

/// That what the layers gave is asked to be normalized.
pub open spec fn has_run(
    talk: Talk,
    k: int,
    at: Reached,
    prompt: Tensor,
    len: usize,
    trailing: Tensor,
    mask: Tensor,
    gave: Tensor,
) -> bool {
    &&& has_masked(talk, k - 1, at, prompt, len, trailing, mask)
    &&& talk.replies[k - 1] == Reply::Tensor(gave)
    &&& talk.asked[k] == Request::Norm(gave)
}

/// That all layers are asked to run on an in-context prompt behind its mask.
pub open spec fn runs_layers(talk: Talk, k: int, at: Reached, len: usize, trailing: Tensor) -> bool {
    exists|prompt: Tensor, mask: Tensor| #[trigger]
        has_masked(talk, k, at, prompt, len, trailing, mask)
}

/// That what the layers gave for an in-context prompt is asked to be normalized.
pub open spec fn runs_norm(talk: Talk, k: int, at: Reached, len: usize, trailing: Tensor) -> bool {
    exists|prompt: Tensor, mask: Tensor, gave: Tensor| #[trigger]
        has_run(talk, k, at, prompt, len, trailing, mask, gave)
}

/// The configuration by which a voice is cloned.
pub open spec fn is_clone_config(talk: Talk, c: ClonePrefill, config: GenerationConfig) -> bool {
    talk.replies[0] matches Reply::Tokens(ids) ==> config == c.options.clone_config(
        c.reference is Some,
        ids@.len(),
    )
}

/// That `r` are the codes of one codebook in all frames, as unsigned numbers.
pub open spec fn are_of_book(codes: Tensor, book: usize, r: Tensor) -> bool {
    is_converted(grid(codes).narrow(1, book, 1).squeeze(1), DType::U32, grid(r))
}

/// That these are the sums of the replies from place `j` on, one reply more each.
pub open spec fn are_sums(talk: Talk, j: int, sums: Seq<Grid>) -> bool {
    &&& sums.len() > 0
    &&& talk.replies[j] matches Reply::Tensor(first)
    &&& sums[0] == grid(first)
    &&& forall|i: int| 0 < i < sums.len() ==> #[trigger] adds_one(talk, j, sums, i)
}

/// That a sum has one reply more than the one before.
pub open spec fn adds_one(talk: Talk, j: int, sums: Seq<Grid>, i: int) -> bool {
    talk.replies[j + i] matches Reply::Tensor(more) && is_sum(sums[i - 1], grid(more), sums[i])
}

/// That `s` is the sum of the replies from place `j` on, up to the one `n` places behind.
pub open spec fn sums_up(talk: Talk, j: int, n: int, s: Grid) -> bool {
    exists|sums: Seq<Grid>| #[trigger]
        are_sums(talk, j, sums) && sums.len() == n + 1 && sums[n] == s
}

/// What the request at place `k` is, as far as it is one of the prompt of a cloned voice.
pub open spec fn follows_clone(talk: Talk, k: int, c: ClonePrefill) -> bool {
    match talk.asked[k] {
        Request::PrefillVoiceClone { ids, embedding, language, in_context } => {
            &&& talk.replies[0] matches Reply::Tokens(tokens)
            &&& ids@ == tokens@
            &&& language == c.language
            &&& in_context == (c.reference is Some)
            &&& is_converted(grid(c.speaker_embedding), c.compute_dtype, grid(embedding))
        },
        Request::EmbedSemantic(codes) => {
            &&& c.reference matches Some(n)
            &&& are_of_book(n.codes, 0, codes)
        },
        Request::EmbedGroup(group, codes) => {
            &&& c.reference matches Some(n)
            &&& group < CODEBOOKS - 1
            &&& talk.asked[k - 1 - group] is EmbedSemantic
            &&& are_of_book(n.codes, (group + 1) as usize, codes)
        },
        Request::IclPrompt { ids, ref_text_ids, ref_embeds } => {
            &&& c.reference matches Some(n)
            &&& ref_text_ids@ == n.text_ids@
            &&& talk.replies[0] matches Reply::Tokens(tokens)
            &&& ids@ == tokens@
            &&& talk.asked[k - CODEBOOKS] is EmbedSemantic
            &&& sums_up(talk, k - CODEBOOKS, CODEBOOKS - 1, grid(ref_embeds))
        },
        _ => true,
    }
}

/// That the prompt of a cloned voice has come to what was asked and replied.
pub open spec fn clone_come(
    talk: Talk,
    k: int,
    from: ClonePrefill,
    c: ClonePrefill,
    config: GenerationConfig,
) -> bool {
    &&& c == (ClonePrefill { phase: c.phase, ..from })
    &&& is_clone_config(talk, from, config)
    &&& follows_clone(talk, k, from)
    &&& phase_come(talk, k, c, config)
}

/// That the prompt of a cloned voice waits for the reply to the request at place `k`.
pub open spec fn phase_come(talk: Talk, k: int, c: ClonePrefill, config: GenerationConfig) -> bool {
    match c.phase {
        ClonePhase::Encoding => k == 0 && talk.asked[k] is Encode,
        ClonePhase::Caching { config: by, ids, embedding } => {
            &&& is_converted(grid(c.speaker_embedding), c.compute_dtype, grid(embedding))
            &&& k == 1
            &&& talk.asked[0] is Encode
            &&& talk.asked[k] is NewCaches
            &&& talk.replies[0] == Reply::Tokens(ids)
            &&& by == config
        },
        ClonePhase::Running { config: by, ids } => {
            &&& k == 2
            &&& talk.asked[k] is PrefillVoiceClone
            &&& talk.asked[0] is Encode
            &&& talk.asked[1] is NewCaches
            &&& talk.replies[0] == Reply::Tokens(ids)
            &&& by == config
        },
        ClonePhase::Semantic(at) => {
            talk.asked[k] is EmbedSemantic && has_reached(talk, k, at) && at.config == config
        },
        ClonePhase::Acoustic { at, summed, group } => {
            &&& talk.asked[k] matches Request::EmbedGroup(index, _)
            &&& index + 1 == group
            &&& group < CODEBOOKS
            &&& talk.asked[k - group] is EmbedSemantic
            &&& sums_up(talk, k - group, group - 1, grid(summed))
            &&& has_reached(talk, k, at)
            &&& at.config == config
        },
        ClonePhase::Prompting(at) => {
            talk.asked[k] is IclPrompt && has_reached(talk, k, at) && at.config == config
        },
        ClonePhase::Masking { at, prompt, len, trailing } => {
            &&& has_laid_out(talk, k, at, prompt, len, trailing)
            &&& at.config == config
        },
        ClonePhase::Layers { at, len, trailing } => {
            at.config == config && runs_layers(talk, k, at, len, trailing)
        },
        ClonePhase::Norm { at, len, trailing } => {
            at.config == config && runs_norm(talk, k, at, len, trailing)
        },
        ClonePhase::Head { config: by, offset, last_hidden, trailing } => {
            &&& by == config
            &&& is_context_end(talk, k, last_hidden)
            &&& talk.latest(k, Task::Context) == k - 4
            &&& is_quiet(talk, k)
            &&& has_context(talk, k)
            &&& talk.replies[talk.latest(k, Task::Context)] matches Reply::Pair(_, left)
            &&& left == trailing
            &&& talk.latest(k, Task::Prompt) >= 0
            &&& offset == prompt_positions(talk, k)
        },
        ClonePhase::Padding { config: by, offset, last_hidden, logits, trailing, len } => {
            &&& by == config
            &&& talk.asked[k] is TtsPad
            &&& is_quiet(talk, k)
            &&& is_hidden(talk, k, last_hidden)
            &&& are_raw(talk, k, logits)
            &&& has_context(talk, k)
            &&& talk.replies[talk.latest(k, Task::Context)] matches Reply::Pair(_, left)
            &&& left == trailing
            &&& tensor_dims(trailing).len() > 1
            &&& len == tensor_dims(trailing)[1]
            &&& talk.latest(k, Task::Prompt) >= 0
            &&& offset == prompt_positions(talk, k)
        },
        ClonePhase::Trailing { at, text } => {
            &&& c.reference is Some ==> talk.latest(k, Task::Context) >= 0
            &&& has_reached(talk, k, at)
            &&& at.config == config
            &&& is_building(talk, k, at.ids@, text)
        },
    }
}

/// One more reply is added up.
proof fn lemma_sums_more(talk: Talk, j: int, n: int, before: Grid, more: Tensor, s: Grid)
    requires
        n > 0,
        sums_up(talk, j, n - 1, before),
        talk.replies[j + n] == Reply::Tensor(more),
        is_sum(before, grid(more), s),
    ensures
        sums_up(talk, j, n, s),
{
    let sums = choose|sums: Seq<Grid>| #[trigger]
        are_sums(talk, j, sums) && sums.len() == n && sums[n - 1] == before;
    let all = sums.push(s);
    assert forall|i: int| 0 < i < all.len() implies #[trigger] adds_one(talk, j, all, i) by {
        if i < n {
            assert(adds_one(talk, j, sums, i));
        }
    }
    assert(are_sums(talk, j, all));
}

/// The reply to the codes of an acoustic codebook leads on.
proof fn lemma_clone_group(
    talk: Talk,
    k: int,
    from: ClonePrefill,
    c: ClonePrefill,
    turn: CloneTurn,
    config: GenerationConfig,
)
    requires
        0 <= k,
        clone_come(talk, k, from, c, config),
        c.wf(),
        c.phase is Acoustic,
        talk.replies[k] is Tensor,
        c.steps(talk.replies[k], turn),
        turn matches CloneTurn::Ask(_, ask) ==> talk.asked[k + 1] == ask,
    ensures
        turn matches CloneTurn::Ask(next, _) && clone_come(talk, k + 1, from, next, config),
{
    let at = c.phase->Acoustic_at;
    let summed = c.phase->Acoustic_summed;
    let group = c.phase->Acoustic_group;
    let embed = talk.replies[k]->Tensor_0;
    assert(has_reached(talk, k + 1, at));
    let s = choose|s: Grid|
        {
            &&& #[trigger] is_sum(grid(summed), grid(embed), s)
            &&& if group + 1 < CODEBOOKS {
                c.embeds(at, s, (group + 1) as usize, turn)
            } else {
                &&& turn matches CloneTurn::Ask(
                    next,
                    Request::IclPrompt { ids, ref_text_ids, ref_embeds },
                )
                &&& next == (ClonePrefill { phase: ClonePhase::Prompting(at), ..c })
                &&& ids@ == at.ids@
                &&& ref_text_ids@ == c.reference->0.text_ids@
                &&& grid(ref_embeds) == s
            }
        };
    let j = k - group;
    lemma_sums_more(talk, j, group as int, grid(summed), embed, s);
    assert(k + 1 - (group + 1) == j);
    if group + 1 == CODEBOOKS {
        assert(sums_up(talk, k + 1 - CODEBOOKS, CODEBOOKS - 1, s));
    } else {
        assert(sums_up(talk, k + 1 - (group + 1) as usize, (group + 1) as usize - 1, s));
    }
}

/// A reply leads on in the prompt of a cloned voice.
proof fn lemma_clone(
    talk: Talk,
    k: int,
    from: ClonePrefill,
    c: ClonePrefill,
    turn: CloneTurn,
    config: GenerationConfig,
)
    requires
        0 <= k,
        clone_come(talk, k, from, c, config),
        c.wf(),
        c.steps(talk.replies[k], turn),
        turn matches CloneTurn::Ask(_, ask) ==> talk.asked[k + 1] == ask,
    ensures
        turn matches CloneTurn::Ask(next, _) ==> clone_come(talk, k + 1, from, next, config),
        turn matches CloneTurn::Ready(f) ==> comes_to(talk, k + 1, f) && f.config == config && (
        from.reference is Some ==> talk.latest(k + 1, Task::Context) >= 0),
        turn is Ask ==> !(talk.asked[k + 1] is EmbedToken),
{
    let reply = talk.replies[k];
    match (c.phase, reply) {
        (ClonePhase::Encoding, Reply::Tokens(_)) => {},
        (ClonePhase::Caching { .. }, Reply::Done) => {},
        (ClonePhase::Running { ids, .. }, Reply::Pair(hidden, logits)) => {
            reveal_with_fuel(Talk::latest, 4);
            reveal_with_fuel(Talk::count, 4);
            let at = choose|at: Reached|
                #![trigger crate::prefill::is_last(hidden, at.offset, at.last_hidden)]
                {
                    &&& crate::prefill::is_last(hidden, at.offset, at.last_hidden)
                    &&& at.config == config
                    &&& at.ids == ids
                    &&& at.logits == logits
                    &&& match c.reference {
                        Some(n) => {
                            &&& turn matches CloneTurn::Ask(next, Request::EmbedSemantic(codes))
                            &&& next == (ClonePrefill { phase: ClonePhase::Semantic(at), ..c })
                            &&& crate::clone::is_column(grid(n.codes), 0, grid(codes))
                        },
                        None => c.builds(at, turn),
                    }
                };
            assert(has_reached(talk, k + 1, at));
            if c.reference is None {
                if let CloneTurn::Ask(next, ask) = turn {
                    lemma_building_starts(talk, k + 1, at.ids@, next.phase->Trailing_text);
                }
            }
        },
        (ClonePhase::Semantic(at), Reply::Tensor(summed)) => {
            assert(has_reached(talk, k + 1, at));
            assert(are_sums(talk, k, seq![grid(summed)]));
            assert(sums_up(talk, k, 0, grid(summed)));
        },
        (ClonePhase::Acoustic { .. }, Reply::Tensor(_)) => {
            lemma_clone_group(talk, k, from, c, turn, config);
        },
        (ClonePhase::Prompting(at), Reply::Pair(prompt, trailing)) => {
            if tensor_dims(prompt)[1] > 0 {
                assert(has_laid_out(talk, k + 1, at, prompt, tensor_dims(prompt)[1], trailing));
            } else {
                assert(has_reached(talk, k + 1, at));
                if let CloneTurn::Ask(next, ask) = turn {
                    lemma_building_starts(talk, k + 1, at.ids@, next.phase->Trailing_text);
                }
            }
        },
        (ClonePhase::Masking { at, prompt, len, trailing }, Reply::Tensor(mask)) => {
            assert(has_masked(talk, k + 1, at, prompt, len, trailing, mask));
            assert(runs_layers(talk, k + 1, at, len, trailing));
        },
        (ClonePhase::Layers { at, len, trailing }, Reply::Tensor(gave)) => {
            let (prompt, mask) = choose|prompt: Tensor, mask: Tensor| #[trigger]
                has_masked(talk, k, at, prompt, len, trailing, mask);
            assert(has_run(talk, k + 1, at, prompt, len, trailing, mask, gave));
            assert(runs_norm(talk, k + 1, at, len, trailing));
        },
        (ClonePhase::Norm { at, len, trailing }, Reply::Tensor(hidden)) => {
            let (prompt, mask, gave) = choose|prompt: Tensor, mask: Tensor, gave: Tensor| #[trigger]
                has_run(talk, k, at, prompt, len, trailing, mask, gave);
            reveal_with_fuel(Talk::latest, 5);
            reveal_with_fuel(Talk::count, 5);
            let j = k + 1;
            assert(talk.asked[j - 4] is IclPrompt);
            assert(talk.asked[j - 3] is CausalMask);
            assert(talk.latest(j, Task::Context) == j - 4);
            assert(talk.latest(j, Task::Prompt) == talk.latest(j - 4, Task::Prompt));
            assert(is_context_end(talk, j, turn->Ask_1->CodecHead_0));
        },
        (ClonePhase::Head { .. }, Reply::Tensor(_)) => {},
        (ClonePhase::Padding { .. }, Reply::Tensor(_)) => {},
        (ClonePhase::Trailing { at, text }, _) => {
            let t = choose|t: TrailingTurn| #[trigger]
                text.steps(reply, t) && match t {
                    TrailingTurn::Ask(text, ask) => turn == CloneTurn::Ask(
                        ClonePrefill { phase: ClonePhase::Trailing { at, text }, ..c },
                        ask,
                    ),
                    TrailingTurn::Built { trailing, len, pad } => turn == CloneTurn::Ready(
                        Prefilled {
                            config: at.config,
                            offset: at.offset,
                            last_hidden: at.last_hidden,
                            logits: at.logits,
                            trailing,
                            trailing_len: len,
                            pad,
                        },
                    ),
                };
            lemma_building(talk, k, at.ids@, text, t);
            assert(has_reached(talk, k + 1, at));
            reveal_with_fuel(Talk::latest, 3);
        },
        _ => {},
    }
}


/// The code of codebook `q` in the frame whose acoustic codes were asked for at place
/// `j`: the token that was sampled last, and then its acoustic codes.
pub open spec fn code_told(talk: Talk, j: int, q: int) -> int {
    if q == 0 {
        match talk.replies[talk.latest(j, Task::Sample)] {
            Reply::Tensor(token) => tensor_cells(token)[0],
            _ => 0,
        }
    } else {
        match talk.replies[j] {
            Reply::Tensor(codes) => tensor_cells(codes)[q - 1],
            _ => 0,
        }
    }
}

/// Whether the model gave a code for each acoustic codebook wherever it was asked.
pub open spec fn all_codes_told(talk: Talk, k: int) -> bool {
    forall|j: int|
        0 <= j < k && #[trigger] talk.asked[j] is Acoustic ==> (talk.replies[j] matches Reply::Tensor(
            codes,
        ) && tensor_cells(codes).len() == CODEBOOKS - 1)
}

/// That these are the frames that were made before place `k`, in order.
pub open spec fn are_made(talk: Talk, k: int, frames: Seq<Tensor>) -> bool {
    &&& frames.len() == talk.count(k, Task::Acoustic)
    &&& forall|j: int|
        0 <= j < k && #[trigger] talk.asked[j] is Acoustic ==> {
            &&& talk.count(j, Task::Acoustic) < frames.len()
            &&& talk.replies[j] matches Reply::Tensor(codes)
            &&& tensor_cells(frames[talk.count(j, Task::Acoustic) as int]) == seq![
                code_told(talk, j, 0),
            ] + tensor_cells(codes)
        }
}

/// One more frame is made.
proof fn lemma_made(talk: Talk, k: int, frames: Seq<Tensor>, more: Seq<Tensor>, codes: Tensor)
    requires
        0 <= k,
        are_made(talk, k, frames),
        talk.asked[k] is Acoustic,
        talk.replies[k] == Reply::Tensor(codes),
        more.len() == frames.len() + 1,
        more.drop_last() == frames,
        tensor_cells(more.last()) == seq![code_told(talk, k, 0)] + tensor_cells(codes),
    ensures
        are_made(talk, k + 1, more),
{
    assert forall|j: int| 0 <= j < k + 1 && #[trigger] talk.asked[j] is Acoustic implies {
        &&& talk.count(j, Task::Acoustic) < more.len()
        &&& talk.replies[j] matches Reply::Tensor(codes)
        &&& tensor_cells(more[talk.count(j, Task::Acoustic) as int]) == seq![code_told(talk, j, 0)]
            + tensor_cells(codes)
    } by {
        if j < k {
            let f = talk.count(j, Task::Acoustic) as int;
            assert(more[f] == more.drop_last()[f]);
        }
    }
}

/// How many generated frames are left out where a voice is cloned in context: three
/// less than the reference text has tokens, unless that leaves nothing.
pub open spec fn left_out(text_len: int, frames: int) -> int {
    if 3 < text_len && text_len - 3 < frames {
        text_len - 3
    } else {
        0
    }
}

/// How many columns come before the generated frames where they are decoded, and how
/// many of the generated frames are left out.
pub open spec fn before_frames(reference: Option<Reference>, frames: int) -> (int, int) {
    match reference {
        Some(n) => (tensor_dims(n.codes)[0] as int, left_out(n.text_ids@.len() as int, frames)),
        None => (0, 0),
    }
}

/// That the frames of a text are decoded: one column for each, one row for each
/// codebook. The frames of a reference come first.
pub open spec fn are_decoded(talk: Talk, k: int, reference: Option<Reference>, t: Tensor) -> bool {
    let n = talk.count(k, Task::Acoustic) as int;
    let (refs, out) = before_frames(reference, n);
    let cols = refs + n - out;
    &&& tensor_dims(t) == seq![1usize, CODEBOOKS, cols as usize]
    &&& forall|j: int, q: int|
        0 <= j < k && talk.asked[j] is Acoustic && 0 <= q < CODEBOOKS && talk.count(
            j,
            Task::Acoustic,
        ) >= out ==> tensor_cells(t)[q * cols + refs + talk.count(j, Task::Acoustic) - out]
            == #[trigger] code_told(talk, j, q)
    &&& reference matches Some(r) ==> exists|u: Grid| #[trigger]
        is_converted(grid(r.codes), DType::U32, u) && forall|f: int, q: int|
            0 <= f < refs && 0 <= q < CODEBOOKS && q < tensor_dims(r.codes)[1] ==> tensor_cells(
                t,
            )[#[trigger] at(q, cols, f)] == u.cells[#[trigger] at(f, tensor_dims(r.codes)[1] as int, q)]
}

/// The place of a cell in rows of this width.
pub open spec fn at(row: int, width: int, col: int) -> int {
    row * width + col
}

/// A code in the tensor of frames.
pub proof fn lemma_column(codes: Seq<Seq<u32>>, location: Location, f: int, q: int)
    requires
        0 <= f < codes.len(),
        0 <= q < CODEBOOKS,
        q < codes[f].len(),
    ensures
        codes_grid(codes, location).cells[q * codes.len() + f] == codes[f][q],
{
    let n = codes.len() as int;
    assert(0 <= q * n + f < CODEBOOKS * n) by (nonlinear_arith)
        requires
            0 <= f < n,
            0 <= q < CODEBOOKS,
    ;
    vstd::arithmetic::div_mod::lemma_fundamental_div_mod_converse(q * n + f, n, q, f);
}


/// The codes that were read back are those that were told.
proof fn lemma_read_back(talk: Talk, k: int, frames: Seq<Tensor>, codes: Seq<Vec<u32>>, j: int, q: int)
    requires
        are_made(talk, k, frames),
        all_codes_told(talk, k),
        transferred(frames, codes),
        0 <= j < k,
        talk.asked[j] is Acoustic,
        0 <= q < CODEBOOKS,
    ensures
        talk.count(j, Task::Acoustic) < codes.len(),
        values(codes)[talk.count(j, Task::Acoustic) as int].len() == CODEBOOKS,
        values(codes)[talk.count(j, Task::Acoustic) as int][q] == code_told(talk, j, q),
{
    assert forall|f: int| 0 <= f < frames.len() implies tensor_cells(#[trigger] frames[f]).len()
        == CODEBOOKS by {
        let i = lemma_nth(talk, k, Task::Acoustic, f);
        assert(talk.asked[i] is Acoustic);
    }
    let n = frames.len() as int;
    lemma_cut_again(frames, n);
    assert(grids(frames).take(n) =~= grids(frames));
    let f = talk.count(j, Task::Acoustic) as int;
    assert(talk.asked[j] is Acoustic);
    assert(f < frames.len());
    assert(cells_of(codes[f]@) == tensor_cells(frames[f]));
    assert(cells_of(codes[f]@).len() == codes[f]@.len());
    assert(cells_of(codes[f]@)[q] == codes[f]@[q]);
    assert(values(codes)[f] == codes[f]@);
}

/// What is decoded behind the last token are the frames that were made.
proof fn lemma_decoded(talk: Talk, k: int, s: Synthesis, frames: Seq<Tensor>, codes: FrameCodes, turn: SynthTurn)
    requires
        0 <= k,
        talk.asked[k] is Sample,
        are_made(talk, k, frames),
        transferred(frames, codes@),
        s.generated(codes, turn),
        turn matches SynthTurn::Ask(_, ask) ==> talk.asked[k + 1] == ask,
    ensures
        turn is Ask ==> (talk.asked[k + 1] matches Request::Decode(t) && (all_codes_told(talk, k + 1)
            ==> are_decoded(talk, k + 1, s.reference, t))),
{
    if turn is Ask && all_codes_told(talk, k + 1) {
        assert(all_codes_told(talk, k)) by {
            assert forall|j: int| 0 <= j < k && #[trigger] talk.asked[j] is Acoustic implies (
            talk.replies[j] matches Reply::Tensor(c) && tensor_cells(c).len() == CODEBOOKS - 1) by {}
        }
        let t = talk.asked[k + 1]->Decode_0;
        let n = talk.count(k + 1, Task::Acoustic) as int;
        let (refs, out) = before_frames(s.reference, n);
        let cols = refs + n - out;
        let location = device_location(s.device);
        let vals = values(codes@);
        assert(vals.len() == n);
        match s.reference {
            None => {
                assert(grid(t) == codes_grid(vals, location));
                assert(tensor_cells(t) == grid(t).cells);
                assert(tensor_dims(t) == grid(t).dims);
                assert forall|j: int, q: int|
                    0 <= j < k + 1 && talk.asked[j] is Acoustic && 0 <= q < CODEBOOKS && talk.count(
                        j,
                        Task::Acoustic,
                    ) >= out implies tensor_cells(t)[q * cols + refs + talk.count(j, Task::Acoustic)
                    - out] == #[trigger] code_told(talk, j, q) by {
                    lemma_read_back(talk, k, frames, codes@, j, q);
                    lemma_column(vals, location, talk.count(j, Task::Acoustic) as int, q);
                }
            },
            Some(r) => {
                let ref_frames = choose|ref_frames: Seq<Vec<u32>>|
                    {
                        &&& #[trigger] read_rows(grid(r.codes), ref_frames)
                        &&& if codes@.len() == 0 {
                            &&& turn matches SynthTurn::Done { audio, codes: c }
                            &&& c == codes
                            &&& audio.samples@.len() == 0
                            &&& audio.sample_rate == crate::options::SAMPLE_RATE
                        } else {
                            let all = decoded_frames(
                                values(ref_frames),
                                values(codes@),
                                r.text_ids@.len(),
                            );
                            let cut = Cut {
                                ref_len: ref_frames.len() as usize,
                                total: all.len() as usize,
                            };
                            s.decodes(all, codes, Some(cut), turn)
                        }
                    };
                let all = decoded_frames(values(ref_frames), vals, r.text_ids@.len());
                let first = values(ref_frames);
                assert(first.len() == ref_frames.len());
                assert(refs == first.len());
                assert(out == crate::codes::warmup(r.text_ids@.len() as int, n));
                assert(all.len() == cols);
                assert(grid(t) == codes_grid(all, location));
                assert(tensor_cells(t) == grid(t).cells);
                assert(tensor_dims(t) == grid(t).dims);
                assert forall|j: int, q: int|
                    0 <= j < k + 1 && talk.asked[j] is Acoustic && 0 <= q < CODEBOOKS && talk.count(
                        j,
                        Task::Acoustic,
                    ) >= out implies tensor_cells(t)[q * cols + refs + talk.count(j, Task::Acoustic)
                    - out] == #[trigger] code_told(talk, j, q) by {
                    lemma_read_back(talk, k, frames, codes@, j, q);
                    let f = talk.count(j, Task::Acoustic) as int;
                    assert(all[refs + f - out] == vals[f]);
                    lemma_column(all, location, refs + f - out, q);
                }
                let u = choose|u: Grid| #[trigger]
                    is_converted(grid(r.codes), DType::U32, u) && refs * tensor_dims(r.codes)[1]
                        <= u.cells.len() && forall|f: int|
                        0 <= f < ref_frames.len() ==> cells_of((#[trigger] ref_frames[f])@)
                            == crate::codes::row(u.cells, tensor_dims(r.codes)[1] as int, f);
                let width = tensor_dims(r.codes)[1] as int;
                assert forall|f: int, q: int|
                    0 <= f < refs && 0 <= q < CODEBOOKS && q < width implies tensor_cells(t)[
                #[trigger] at(q, cols, f)] == u.cells[#[trigger] at(f, width, q)] by {
                    assert(all[f] == first[f]);
                    assert(first[f] == ref_frames[f]@);
                    assert(ref_frames[f]@.len() == width);
                    lemma_column(all, location, f, q);
                    let cells = cells_of(ref_frames[f]@);
                    assert(cells.len() == ref_frames[f]@.len());
                    assert(cells[q] == ref_frames[f]@[q]);
                    assert(cells == u.cells.subrange(f * width, f * width + width));
                    assert(f * width + width <= refs * width) by (nonlinear_arith)
                        requires
                            0 <= f < refs,
                            0 <= width,
                    ;
                    assert(u.cells.subrange(f * width, f * width + width)[q] == u.cells[f * width
                        + q]);
                }
            },
        }
    }
}


/// That the frames of the reference are cut, where there is one, out of all that are
/// decoded.
pub open spec fn is_cut_for(reference: Option<Reference>, cut: Option<Cut>, t: Tensor) -> bool {
    match (reference, cut) {
        (None, None) => true,
        (Some(r), Some(c)) => c.ref_len == tensor_dims(r.codes)[0] && c.total == tensor_dims(t)[2],
        _ => false,
    }
}

/// What is decoded is cut by the frames of the reference.
proof fn lemma_cut(s: Synthesis, codes: FrameCodes, next: Synthesis, t: Tensor)
    requires
        s.generated(codes, SynthTurn::Ask(next, Request::Decode(t))),
    ensures
        next.stage matches Stage::Decoding { cut, .. } && is_cut_for(s.reference, cut, t),
{
    assert(tensor_dims(t) == grid(t).dims);
    if let Some(r) = s.reference {
        assert(grid(r.codes).dims == tensor_dims(r.codes));
    }
}

/// That a synthesis has come to what was asked and replied, and waits for the reply to
/// the request at place `k`.
#[verifier::opaque]
pub open spec fn stage_come(
    talk: Talk,
    k: int,
    s: Synthesis,
    source: Source,
    config: GenerationConfig,
) -> bool {
    match s.stage {
        Stage::Prefill(p) => source matches Source::Voice(v) && prompt_come(talk, k, v, p)
            && p.config == config,
        Stage::Clone(c) => source matches Source::Clone(from) && clone_come(
            talk,
            k,
            from,
            c,
            config,
        ),
        Stage::Generating(l) => {
            &&& source matches Source::Clone(from) ==> (from.reference is Some ==> talk.latest(
                k,
                Task::Context,
            ) >= 0)
            &&& has_come(talk, k, l.generator)
            &&& l.generator.config == config
            &&& are_made(talk, k, l.frames@)
            &&& follows(talk, k, config)
        },
        Stage::Decoding { cut, .. } => {
            &&& talk.asked[k] matches Request::Decode(t)
            &&& all_codes_told(talk, k) ==> are_decoded(talk, k, s.reference, t)
            &&& is_cut_for(s.reference, cut, t)
        },
        Stage::Reading { cut, .. } => {
            &&& 0 < k
            &&& talk.asked[k - 1] matches Request::Decode(t)
            &&& is_cut_for(s.reference, cut, t)
            &&& talk.replies[k - 1] matches Reply::Tensor(waveform)
            &&& talk.asked[k] == Request::ToAudio(waveform, 24000)
        },
    }
}

/// A reply leads on in the loop that generates the frames.
proof fn lemma_loop(talk: Talk, k: int, l: CodeLoop, turn: CodeTurn, config: GenerationConfig)
    requires
        0 <= k,
        l.wf(),
        has_come(talk, k, l.generator),
        l.generator.config == config,
        are_made(talk, k, l.frames@),
        l.steps(talk.replies[k], turn),
        turn matches CodeTurn::Ask(next, ask) ==> talk.asked[k + 1] == ask && next.generator.wf(),
    ensures
        turn matches CodeTurn::Ask(next, _) ==> {
            &&& has_come(talk, k + 1, next.generator)
            &&& next.generator.config == config
            &&& are_made(talk, k + 1, next.frames@)
            &&& follows(talk, k + 1, config)
        },
        turn matches CodeTurn::Codes(codes) ==> talk.asked[k] is Sample && transferred(
            l.frames@,
            codes@,
        ),
{
    let reply = talk.replies[k];
    let (g, t) = choose|g: Generator, t: GenTurn| #[trigger]
        l.generator.steps(reply, g, t) && l.follows(g, t, turn);
    assert(g.wf());
    lemma_goes_on(talk, k, l.generator, g, t);
    match t {
        GenTurn::Ask(ask) => {
            assert(!(talk.asked[k] is Acoustic));
            lemma_not_made(talk, k, l.frames@);
        },
        GenTurn::Frame { id, token, acoustic, ask } => {
            let next = turn->Ask_0;
            assert(tensor_cells(next.frames@.last()) == grid(next.frames@.last()).cells);
            lemma_made(talk, k, l.frames@, next.frames@, acoustic);
        },
        GenTurn::Token => {
            lemma_not_made(talk, k, l.frames@);
            if turn is Ask {
                lemma_begins(talk, k + 1, g);
            }
        },
    }
}

/// No frame is made where something else was asked for.
proof fn lemma_not_made(talk: Talk, k: int, frames: Seq<Tensor>)
    requires
        0 <= k,
        are_made(talk, k, frames),
        !(talk.asked[k] is Acoustic),
    ensures
        are_made(talk, k + 1, frames),
{
    assert forall|j: int| 0 <= j < k + 1 && #[trigger] talk.asked[j] is Acoustic implies {
        &&& talk.count(j, Task::Acoustic) < frames.len()
        &&& talk.replies[j] matches Reply::Tensor(codes)
        &&& tensor_cells(frames[talk.count(j, Task::Acoustic) as int]) == seq![
            code_told(talk, j, 0),
        ] + tensor_cells(codes)
    } by {
        assert(j < k);
    }
}

/// A reply leads on in a synthesis.
proof fn lemma_stage(
    talk: Talk,
    k: int,
    s: Synthesis,
    next: Synthesis,
    source: Source,
    config: GenerationConfig,
)
    requires
        0 <= k,
        stage_come(talk, k, s, source, config),
        synthesis_leads(s, talk.replies[k], SynthTurn::Ask(next, talk.asked[k + 1])),
        next.wf(),
    ensures
        stage_come(talk, k + 1, next, source, config),
        next.reference == s.reference,
{
    reveal(synthesis_leads);
    reveal(stage_come);
    let reply = talk.replies[k];
    let turn = SynthTurn::Ask(next, talk.asked[k + 1]);
    match s.stage {
        Stage::Prefill(p) => {
            let t = choose|t: PrefillTurn| #[trigger]
                p.steps(reply, t) && match t {
                    PrefillTurn::Ask(p, ask) => turn == SynthTurn::Ask(
                        Synthesis { stage: Stage::Prefill(p), ..s },
                        ask,
                    ),
                    PrefillTurn::Ready(f) => s.begins(f, turn),
                };
            lemma_prompt(talk, k, source->Voice_0, p, t);
            if let PrefillTurn::Ready(f) = t {
                lemma_begun(talk, k + 1, s, f, next);
            }
        },
        Stage::Clone(c) => {
            let t = choose|t: CloneTurn| #[trigger]
                c.steps(reply, t) && match t {
                    CloneTurn::Ask(c, ask) => turn == SynthTurn::Ask(
                        Synthesis { stage: Stage::Clone(c), ..s },
                        ask,
                    ),
                    CloneTurn::Ready(f) => s.begins(f, turn),
                };
            lemma_clone(talk, k, source->Clone_0, c, t, config);
            if let CloneTurn::Ready(f) = t {
                lemma_begun(talk, k + 1, s, f, next);
            }
        },
        Stage::Generating(l) => {
            let t = choose|t: CodeTurn| #[trigger]
                l.steps(reply, t) && match t {
                    CodeTurn::Ask(l, ask) => turn == SynthTurn::Ask(
                        Synthesis { stage: Stage::Generating(l), ..s },
                        ask,
                    ),
                    CodeTurn::Codes(codes) => s.generated(codes, turn),
                };
            lemma_loop(talk, k, l, t, config);
            if let CodeTurn::Codes(codes) = t {
                lemma_decoded(talk, k, s, l.frames@, codes, turn);
                lemma_cut(s, codes, next, talk.asked[k + 1]->Decode_0);
            }
        },
        _ => {},
    }
}

/// Generation begins behind the prompt.
proof fn lemma_begun(talk: Talk, k: int, s: Synthesis, f: Prefilled, next: Synthesis)
    requires
        0 <= k,
        comes_to(talk, k, f),
        s.begins(f, SynthTurn::Ask(next, talk.asked[k])),
        next.wf(),
    ensures
        next.stage matches Stage::Generating(l) && has_come(talk, k, l.generator)
            && l.generator.config == f.config && are_made(talk, k, l.frames@) && follows(
            talk,
            k,
            f.config,
        ),
{
    if let Stage::Generating(l) = next.stage {
        lemma_comes(talk, k, f, s.device, l.generator);
        assert forall|j: int| 0 <= j < k implies !(#[trigger] talk.asked[j] is Acoustic) by {
            lemma_latest(talk, k, Task::Acoustic);
        }
    }
}


/// The states of a run have come to what was asked and replied.
proof fn lemma_run(run: SynthTalk, source: Source, config: GenerationConfig, k: int)
    requires
        run.wf(),
        stage_come(run.talk, 0, run.states[0], source, config),
        0 <= k < run.talk.asked.len(),
    ensures
        run.states[k].wf(),
        stage_come(run.talk, k, run.states[k], source, config),
        run.states[k].reference == run.states[0].reference,
    decreases k,
{
    assert(run.states[k].wf()) by {
        if k < run.talk.replies.len() {
            assert(synthesis_leads(
                run.states[k],
                run.talk.replies[k],
                SynthTurn::Ask(run.states[k + 1], run.talk.asked[k + 1]),
            ));
            reveal(synthesis_leads);
        }
    }
    if k > 0 {
        lemma_run(run, source, config, k - 1);
        assert(synthesis_leads(
            run.states[k - 1],
            run.talk.replies[k - 1],
            SynthTurn::Ask(run.states[k - 1 + 1], run.talk.asked[k - 1 + 1]),
        ));
        lemma_stage(run.talk, k - 1, run.states[k - 1], run.states[k], source, config);
    }
}

/// Whether a run synthesizes this text in a preset or described voice.
pub open spec fn speaks(
    run: SynthTalk,
    device: Device,
    text: Seq<char>,
    voice: Voice,
    config: GenerationConfig,
) -> bool {
    &&& run.wf()
    &&& starts_with(device, text, config, (run.states[0], run.talk.asked[0]))
    &&& starts_as((run.states[0], run.talk.asked[0]), voice)
}

/// Whether a run synthesizes this text in a cloned voice.
pub open spec fn clones(
    run: SynthTalk,
    model: Qwen3TTS,
    text: Seq<char>,
    prompt: VoiceClonePrompt,
    language: Language,
    options: SynthesisOptions,
) -> bool {
    &&& run.wf()
    &&& starts_clone(model, text, prompt, language, options, (run.states[0], run.talk.asked[0]))
}

/// The configuration by which a run clones a voice, once the text is tokenized.
pub open spec fn clones_by(run: SynthTalk, prompt: VoiceClonePrompt, options: SynthesisOptions) -> GenerationConfig {
    match run.talk.replies[0] {
        Reply::Tokens(ids) => options.clone_config(prompt.in_context(), ids@.len()),
        _ => options.gen_config(),
    }
}

/// What is asked where a preset or described voice speaks.
proof fn lemma_voice_place(talk: Talk, k: int, s: Synthesis, voice: Voice, config: GenerationConfig)
    requires
        s.wf(),
        stage_come(talk, k, s, Source::Voice(voice), config),
    ensures
        is_task(talk.asked[k], Task::Prompt) ==> runs_prompt(talk, k, voice),
        follows(talk, k, config),
        talk.asked[k] matches Request::NewCaches(size) ==> config.max_new_tokens + 256 <= usize::MAX
            ==> size == config.max_new_tokens + 256,
        talk.asked[k] matches Request::Decode(t) ==> all_codes_told(talk, k) ==> are_decoded(
            talk,
            k,
            s.reference,
            t,
        ),
        talk.asked[k] matches Request::ToAudio(waveform, rate) ==> 0 < k && talk.asked[k
            - 1] is Decode && talk.replies[k - 1] == Reply::Tensor(waveform) && rate == 24000,
        talk.asked[k] is Acoustic ==> is_stepped(talk, k),
        !(talk.asked[k] is IclPrompt),
{
    reveal(stage_come);
}

/// Whether as many steps were made as frames before place `k`, and a step is what the
/// talker was run for last, if there was one.
pub open spec fn is_stepped(talk: Talk, k: int) -> bool {
    &&& talk.count(k, Task::Step) == talk.count(k, Task::Acoustic)
    &&& talk.count(k, Task::Step) > 0 ==> talk.latest(k, Task::Talker) == talk.latest(k, Task::Step)
}

/// What is asked where a voice is cloned.
proof fn lemma_clone_place(
    talk: Talk,
    k: int,
    s: Synthesis,
    from: ClonePrefill,
    config: GenerationConfig,
)
    requires
        s.wf(),
        stage_come(talk, k, s, Source::Clone(from), config),
    ensures
        follows_clone(talk, k, from),
        follows(talk, k, config),
        talk.asked[k] is Acoustic ==> from.reference is Some ==> talk.latest(k, Task::Context) >= 0,
        talk.asked[k] matches Request::Decode(t) ==> all_codes_told(talk, k) ==> are_decoded(
            talk,
            k,
            s.reference,
            t,
        ),
        talk.asked[k] matches Request::ToAudio(waveform, rate) ==> 0 < k && talk.asked[k
            - 1] is Decode && talk.replies[k - 1] == Reply::Tensor(waveform) && rate == 24000,
        talk.asked[k] is Acoustic ==> is_stepped(talk, k),
        !(talk.asked[k] is PrefillCustomVoice),
        !(talk.asked[k] is PrefillVoiceDesign),
{
    reveal(stage_come);
}

/// A run in a preset or described voice starts with its text.
proof fn lemma_speaks(
    run: SynthTalk,
    device: Device,
    text: Seq<char>,
    voice: Voice,
    config: GenerationConfig,
)
    requires
        starts_with(device, text, config, (run.states[0], run.talk.asked[0])),
        starts_as((run.states[0], run.talk.asked[0]), voice),
    ensures
        stage_come(run.talk, 0, run.states[0], Source::Voice(voice), config),
        run.states[0].reference is None,
{
    reveal(stage_come);
}

/// A run in a cloned voice starts with its text.
proof fn lemma_clones(
    run: SynthTalk,
    model: Qwen3TTS,
    text: Seq<char>,
    prompt: VoiceClonePrompt,
    language: Language,
    options: SynthesisOptions,
)
    requires
        starts_clone(model, text, prompt, language, options, (run.states[0], run.talk.asked[0])),
    ensures
        stage_come(
            run.talk,
            0,
            run.states[0],
            Source::Clone(run.states[0].stage->Clone_0),
            clones_by(run, prompt, options),
        ),
{
    reveal(stage_come);
}

/// What the synthesis of a text asks for is told by the text, the voice and the replies
/// so far: the talker is run on the tokens of the text; each semantic token is sampled
/// from the logits that the talker gave last, with the tokens so far penalised and
/// end-of-sequence held back as long as it is too early; each frame is predicted from
/// what the talker gave last, fused with its own position of the text, and handed back
/// to the talker; and what is decoded are those frames in order.
pub proof fn law_voice_talk(
    run: SynthTalk,
    device: Device,
    text: Seq<char>,
    voice: Voice,
    config: GenerationConfig,
    k: int,
)
    requires
        speaks(run, device, text, voice, config),
        0 <= k < run.talk.asked.len(),
    ensures
        run.talk.asked[0] matches Request::Encode(t) && t@ == text,
        is_task(run.talk.asked[k], Task::Prompt) ==> runs_prompt(run.talk, k, voice),
        follows(run.talk, k, config),
        run.talk.asked[k] matches Request::NewCaches(size) ==> config.max_new_tokens + 256
            <= usize::MAX ==> size == config.max_new_tokens + 256,
        run.talk.asked[k] matches Request::Decode(t) ==> all_codes_told(run.talk, k) ==> are_decoded(
            run.talk,
            k,
            None,
            t,
        ),
        run.talk.asked[k] matches Request::ToAudio(waveform, rate) ==> 0 < k
            && run.talk.asked[k - 1] is Decode && run.talk.replies[k - 1] == Reply::Tensor(waveform)
            && rate == 24000,
{
    lemma_speaks(run, device, text, voice, config);
    lemma_run(run, Source::Voice(voice), config, k);
    lemma_voice_place(run.talk, k, run.states[k], voice, config);
}

/// What the synthesis of a text in a cloned voice asks for is told by the text, the
/// prompt and the replies so far, in the same way. In context the codes of the reference
/// are embedded codebook by codebook, added up, and laid out with both texts as a prompt.
pub proof fn law_clone_talk(
    run: SynthTalk,
    model: Qwen3TTS,
    text: Seq<char>,
    prompt: VoiceClonePrompt,
    language: Language,
    options: SynthesisOptions,
    k: int,
)
    requires
        clones(run, model, text, prompt, language, options),
        0 <= k < run.talk.asked.len(),
    ensures
        run.talk.asked[0] matches Request::Encode(t) && t@ == text,
        follows(run.talk, k, clones_by(run, prompt, options)),
        match run.talk.asked[k] {
            Request::PrefillVoiceClone { ids, embedding, language: l, in_context } => {
                &&& run.talk.replies[0] matches Reply::Tokens(tokens)
                &&& ids@ == tokens@
                &&& l == language
                &&& in_context == prompt.in_context()
                &&& is_converted(
                    grid(prompt.speaker_embedding),
                    model.compute_dtype,
                    grid(embedding),
                )
            },
            Request::EmbedSemantic(codes) => prompt.in_context() && are_of_book(
                prompt.ref_codes->0,
                0,
                codes,
            ),
            Request::EmbedGroup(group, codes) => {
                &&& prompt.in_context()
                &&& group < CODEBOOKS - 1
                &&& run.talk.asked[k - 1 - group] is EmbedSemantic
                &&& are_of_book(prompt.ref_codes->0, (group + 1) as usize, codes)
            },
            Request::IclPrompt { ids, ref_text_ids, ref_embeds } => {
                &&& prompt.in_context()
                &&& run.talk.replies[0] matches Reply::Tokens(tokens)
                &&& ids@ == tokens@
                &&& ref_text_ids@ == prompt.ref_text_ids->0@
                &&& run.talk.asked[k - CODEBOOKS] is EmbedSemantic
                &&& sums_up(run.talk, k - CODEBOOKS, CODEBOOKS - 1, grid(ref_embeds))
            },
            Request::Acoustic { .. } => prompt.in_context() ==> run.talk.latest(k, Task::Context)
                >= 0,
            Request::Decode(t) => all_codes_told(run.talk, k) ==> exists|r: Option<Reference>|
                {
                    &&& #[trigger] are_decoded(run.talk, k, r, t)
                    &&& r is Some <==> prompt.in_context()
                    &&& r matches Some(n) ==> n.codes == prompt.ref_codes->0 && n.text_ids@
                        == prompt.ref_text_ids->0@
                },
            Request::ToAudio(waveform, rate) => {
                &&& 0 < k
                &&& run.talk.asked[k - 1] is Decode
                &&& run.talk.replies[k - 1] == Reply::Tensor(waveform)
                &&& rate == 24000
            },
            _ => true,
        },
{
    let from = run.states[0].stage->Clone_0;
    lemma_clones(run, model, text, prompt, language, options);
    lemma_run(run, Source::Clone(from), clones_by(run, prompt, options), k);
    lemma_clone_place(run.talk, k, run.states[k], from, clones_by(run, prompt, options));
    if let Request::Decode(t) = run.talk.asked[k] {
        if all_codes_told(run.talk, k) {
            assert(are_decoded(run.talk, k, run.states[k].reference, t));
        }
    }
}

/// The audio of a text in a preset or described voice is the reply to the request for the
/// audio of its waveform, as it is.
pub proof fn law_voice_audio(
    run: SynthTalk,
    device: Device,
    text: Seq<char>,
    voice: Voice,
    config: GenerationConfig,
    reply: Reply,
    audio: AudioBuffer,
    codes: FrameCodes,
)
    requires
        speaks(run, device, text, voice, config),
        run.states.last().steps(reply, SynthTurn::Done { audio, codes }),
    ensures
        run.talk.asked.last() is ToAudio,
        reply == Reply::Audio(audio),
{
    let k = run.talk.asked.len() - 1;
    lemma_speaks(run, device, text, voice, config);
    lemma_run(run, Source::Voice(voice), config, k);
    reveal(stage_come);
}

/// The audio of a text in a cloned voice is the reply to the request for the audio of its
/// waveform. In context the share of the reference is cut from the front: so many of the
/// samples as there are frames of the reference among the frames that were decoded. Where
/// no frame was generated there is nothing.
pub proof fn law_clone_audio(
    run: SynthTalk,
    model: Qwen3TTS,
    text: Seq<char>,
    prompt: VoiceClonePrompt,
    language: Language,
    options: SynthesisOptions,
    reply: Reply,
    audio: AudioBuffer,
    codes: FrameCodes,
)
    requires
        clones(run, model, text, prompt, language, options),
        run.states.last().steps(reply, SynthTurn::Done { audio, codes }),
    ensures
        run.talk.asked.last() is ToAudio && !prompt.in_context() ==> reply == Reply::Audio(audio),
        run.talk.asked.last() is ToAudio && prompt.in_context() ==> {
            &&& reply matches Reply::Audio(whole)
            &&& run.talk.asked[run.talk.asked.len() - 2] matches Request::Decode(t)
            &&& audio.sample_rate == whole.sample_rate
            &&& tensor_dims(t)[2] > 0 ==> audio.samples@ == whole.samples@.skip(
                tensor_dims(prompt.ref_codes->0)[0] * whole.samples@.len() / (tensor_dims(
                    t,
                )[2] as int),
            )
        },
        !(run.talk.asked.last() is ToAudio) ==> {
            &&& prompt.in_context()
            &&& run.talk.asked.last() is Sample
            &&& run.talk.count(run.talk.asked.len() - 1, Task::Acoustic) == 0
            &&& audio.samples@.len() == 0
            &&& audio.sample_rate == 24000
        },
{
    let k = run.talk.asked.len() - 1;
    let from = run.states[0].stage->Clone_0;
    let config = clones_by(run, prompt, options);
    lemma_clones(run, model, text, prompt, language, options);
    lemma_run(run, Source::Clone(from), config, k);
    reveal(stage_come);
    let s = run.states[k];
    if let Stage::Generating(l) = s.stage {
        let turn = SynthTurn::Done { audio, codes };
        let t = choose|t: CodeTurn| #[trigger]
            l.steps(reply, t) && match t {
                CodeTurn::Ask(l, ask) => turn == SynthTurn::Ask(
                    Synthesis { stage: Stage::Generating(l), ..s },
                    ask,
                ),
                CodeTurn::Codes(codes) => s.generated(codes, turn),
            };
    }
}

/// That the acoustic codes asked for at place `k` are predicted from what the talker gave
/// for the frame before, where it was stepped on at place `j`.
pub open spec fn is_of_step(talk: Talk, k: int, j: int) -> bool {
    &&& 0 <= j < k
    &&& talk.asked[j] is Step
    &&& talk.count(j, Task::Step) + 1 == talk.count(k, Task::Acoustic)
    &&& talk.replies[j] matches Reply::Pair(gave, _)
    &&& talk.asked[k] matches Request::Acoustic { hidden, .. }
    &&& hidden == gave
}

/// That the acoustic codes asked for at place `k` are predicted from the last position of
/// the prompt that the talker was run on at place `j`.
pub open spec fn is_of_prompt(talk: Talk, k: int, j: int) -> bool {
    &&& 0 <= j < k
    &&& talk.asked[j] is PrefillCustomVoice || talk.asked[j] is PrefillVoiceDesign
        || talk.asked[j] is PrefillVoiceClone
    &&& talk.replies[j] matches Reply::Pair(gave, _)
    &&& tensor_dims(gave)[1] > 0
    &&& talk.asked[k] matches Request::Acoustic { hidden, .. }
    &&& grid(hidden) == grid(gave).narrow(1, (tensor_dims(gave)[1] - 1) as usize, 1)
}

/// That the acoustic codes asked for at place `k` are predicted from the last position of
/// the in-context prompt, of which the logits were asked for at place `j`: of what the
/// layers gave for that prompt, normalized.
pub open spec fn is_of_context(talk: Talk, k: int, j: int) -> bool {
    &&& 4 <= j < k
    &&& talk.asked[j - 4] is IclPrompt
    &&& talk.replies[j - 4] matches Reply::Pair(prompt, _)
    &&& tensor_dims(prompt)[1] > 0
    &&& talk.asked[j - 2] matches Request::Forward { input, .. }
    &&& input == prompt
    &&& talk.replies[j - 2] matches Reply::Tensor(gave)
    &&& talk.asked[j - 1] == Request::Norm(gave)
    &&& talk.replies[j - 1] matches Reply::Tensor(normalized)
    &&& talk.asked[k] matches Request::Acoustic { hidden, .. }
    &&& talk.asked[j] == Request::CodecHead(hidden)
    &&& grid(hidden) == grid(normalized).narrow(1, (tensor_dims(prompt)[1] - 1) as usize, 1)
}

/// Acoustic codes are predicted from what the talker gave last.
proof fn lemma_talker(talk: Talk, k: int)
    requires
        talk.asked[k] is Acoustic,
        is_stepped(talk, k),
        is_hidden(talk, k, talk.asked[k]->Acoustic_hidden),
    ensures
        ({
            let j = talk.latest(k, Task::Talker);
            &&& 0 <= j < k
            &&& talk.count(k, Task::Acoustic) > 0 ==> is_of_step(talk, k, j)
            &&& talk.count(k, Task::Acoustic) == 0 ==> is_of_prompt(talk, k, j) || is_of_context(
                talk,
                k,
                j,
            )
            &&& talk.count(k, Task::Acoustic) == 0 ==> (has_context(talk, k) <==> is_of_context(
                talk,
                k,
                j,
            ))
        }),
{
    lemma_latest(talk, k, Task::Talker);
    lemma_latest(talk, k, Task::Step);
    let j = talk.latest(k, Task::Talker);
    if talk.count(k, Task::Acoustic) == 0 && talk.asked[j] is Step {
        lemma_count_grows(talk, j, k, Task::Step);
    }
}

/// What is known where acoustic codes are asked for in a preset or described voice.
proof fn lemma_voice_acoustic(
    run: SynthTalk,
    device: Device,
    text: Seq<char>,
    voice: Voice,
    config: GenerationConfig,
    k: int,
)
    requires
        speaks(run, device, text, voice, config),
        0 <= k < run.talk.asked.len(),
        run.talk.asked[k] is Acoustic,
    ensures
        is_stepped(run.talk, k),
        is_hidden(run.talk, k, run.talk.asked[k]->Acoustic_hidden),
{
    lemma_speaks(run, device, text, voice, config);
    lemma_run(run, Source::Voice(voice), config, k);
    lemma_voice_place(run.talk, k, run.states[k], voice, config);
}

/// What is not asked for in a preset or described voice.
proof fn lemma_voice_prompt(
    run: SynthTalk,
    device: Device,
    text: Seq<char>,
    voice: Voice,
    config: GenerationConfig,
    k: int,
)
    requires
        speaks(run, device, text, voice, config),
        0 <= k < run.talk.asked.len(),
    ensures
        !(run.talk.asked[k] is IclPrompt),
        !(run.talk.asked[k] is PrefillVoiceClone),
{
    lemma_speaks(run, device, text, voice, config);
    lemma_run(run, Source::Voice(voice), config, k);
    lemma_voice_place(run.talk, k, run.states[k], voice, config);
}

/// What is known where acoustic codes are asked for in a cloned voice.
proof fn lemma_clone_acoustic(
    run: SynthTalk,
    model: Qwen3TTS,
    text: Seq<char>,
    prompt: VoiceClonePrompt,
    language: Language,
    options: SynthesisOptions,
    k: int,
)
    requires
        clones(run, model, text, prompt, language, options),
        0 <= k < run.talk.asked.len(),
    ensures
        run.talk.asked[k] is Acoustic ==> is_stepped(run.talk, k) && is_hidden(
            run.talk,
            k,
            run.talk.asked[k]->Acoustic_hidden,
        ) && (prompt.in_context() ==> run.talk.latest(k, Task::Context) >= 0),
        !(run.talk.asked[k] is PrefillCustomVoice),
        !(run.talk.asked[k] is PrefillVoiceDesign),
{
    let from = run.states[0].stage->Clone_0;
    let config = clones_by(run, prompt, options);
    lemma_clones(run, model, text, prompt, language, options);
    lemma_run(run, Source::Clone(from), config, k);
    lemma_clone_place(run.talk, k, run.states[k], from, config);
}

/// The acoustic codes of a frame are predicted from what the talker gave for the frame
/// before: the hidden state of its step. Those of the first frame are predicted from the
/// last position of the prompt.
pub proof fn law_frame_hidden(
    run: SynthTalk,
    device: Device,
    text: Seq<char>,
    voice: Voice,
    config: GenerationConfig,
    k: int,
)
    requires
        speaks(run, device, text, voice, config),
        0 <= k < run.talk.asked.len(),
        run.talk.asked[k] is Acoustic,
    ensures
        run.talk.count(k, Task::Acoustic) > 0 ==> exists|j: int| #[trigger]
            is_of_step(run.talk, k, j),
        run.talk.count(k, Task::Acoustic) == 0 ==> exists|j: int| #[trigger]
            is_of_prompt(run.talk, k, j),
{
    lemma_voice_acoustic(run, device, text, voice, config, k);
    let j = run.talk.latest(k, Task::Talker);
    lemma_talker(run.talk, k);
    if is_of_context(run.talk, k, j) {
        lemma_voice_prompt(run, device, text, voice, config, j - 4);
    }
}

/// Where a voice is cloned in context, the acoustic codes of the first frame are
/// predicted from the last position of the in-context prompt: of what the layers gave
/// for it, normalized, the position that the logits of the first token come from. Those
/// of a later frame are predicted from the hidden state of the step before.
pub proof fn law_context_hidden(
    run: SynthTalk,
    model: Qwen3TTS,
    text: Seq<char>,
    prompt: VoiceClonePrompt,
    language: Language,
    options: SynthesisOptions,
    k: int,
)
    requires
        clones(run, model, text, prompt, language, options),
        0 <= k < run.talk.asked.len(),
        run.talk.asked[k] is Acoustic,
    ensures
        run.talk.count(k, Task::Acoustic) > 0 ==> exists|j: int| #[trigger]
            is_of_step(run.talk, k, j),
        run.talk.count(k, Task::Acoustic) == 0 && has_context(run.talk, k) ==> exists|j: int|
            #[trigger]
            is_of_context(run.talk, k, j),
        run.talk.count(k, Task::Acoustic) == 0 && !has_context(run.talk, k) ==> exists|j: int|
            #[trigger]
            is_of_prompt(run.talk, k, j),
        prompt.in_context() ==> run.talk.latest(k, Task::Context) >= 0,
{
    lemma_clone_acoustic(run, model, text, prompt, language, options, k);
    lemma_talker(run.talk, k);
}

} // verus!
