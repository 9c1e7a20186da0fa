//! What the streamed synthesis of several texts asks for: each sequence is sampled by its
//! own tokens, its own logits and its own options.
use crate::batch_prompt::PromptTurn;
use crate::batch_start::{BatchReady, BatchStart, BatchStartTurn};
use crate::batch_stream::{
    are_codes, ends_of, has_hiddens, limits_of, BatchStreaming, StreamStage, StreamTurn,
};
use crate::batch_synth_talks::{base_of, lemma_ready_batch, texts_of};
use crate::batch_talks::{
    batch_come, going_on, hiddens_come, is_head_of, is_predicted, is_prompt_len, is_round,
    is_row_hidden, lemma_batch_stays, lemma_hiddens_stay, lemma_prompts, lemma_ready_stays,
    lemma_round, lemma_start, lemma_start_begins, prompts_come, ready_known,
    round_come, start_come,
};
use crate::double::DOUBLE_ONE;
use crate::generator::Phase;
use crate::grid::{NEG_INFINITY, ONE};
use crate::model::{stream_configs, BatchRequest, Qwen3TTS};
use crate::options::{greatest, options_or_default, GenerationConfig, CODEC_VOCAB_SIZE};
use crate::request::{Reply, Request};
use crate::round::{actives, ended, indices, lemma_actives, Batch, Played, Round, RoundTurn};
use crate::sampler::{TokenStep, TokenTurn};
use crate::talks::{are_read, is_task, may_end_after, Talk, Task};
use crate::tensor::{grid, tensor_cells, tensor_dims};
use candle_core::Tensor;
use vstd::prelude::*;

verus! {

/// That this token was sampled for sequence `i` at place `j`.
pub open spec fn is_sampled_at(talk: Talk, j: int, i: usize, token: int) -> bool {
    &&& talk.asked[j] matches Request::Sample { sequence, .. }
    &&& sequence == i
    &&& talk.replies[j] matches Reply::Tensor(t)
    &&& tensor_cells(t)[0] == token
}

/// Whether this token was sampled for sequence `i` before place `k`.
pub open spec fn has_sampled_for(talk: Talk, k: int, i: usize, token: int) -> bool {
    exists|j: int| 0 <= j < k && #[trigger] is_sampled_at(talk, j, i, token)
}

/// That the marks are one for the tokens that were sampled for sequence `i`, and zero
/// for the others.
pub open spec fn are_marks_for(talk: Talk, k: int, i: usize, marks: Tensor) -> bool {
    &&& tensor_cells(marks).len() == CODEC_VOCAB_SIZE
    &&& forall|v: int|
        0 <= v < CODEC_VOCAB_SIZE ==> #[trigger] tensor_cells(marks)[v] == if has_sampled_for(
            talk,
            k,
            i,
            v,
        ) {
            ONE as int
        } else {
            0
        }
}

/// That these are the logits that the talker gave last for sequence `i`: those of its
/// prompt as long as nothing was sampled for it, and then its row of those of the round.
pub open spec fn are_raw_for(talk: Talk, k: int, i: usize, raw: Tensor) -> bool {
    if talk.count(k, Task::SampleFor(i)) == 0 {
        is_head_of(talk, k, i as int, raw)
    } else {
        let h = talk.latest(k, Task::Head);
        &&& 0 <= h
        &&& talk.replies[h] matches Reply::Tensor(all)
        &&& grid(raw) == grid(all).narrow(0, i, 1)
    }
}

/// That these are the logits that the talker gave last for sequence `i`, as they are read.
pub open spec fn are_latest_for(talk: Talk, k: int, i: usize, logits: Tensor) -> bool {
    exists|raw: Tensor| #[trigger] are_raw_for(talk, k, i, raw) && are_read(raw, logits)
}

/// That the logits of sequence `i` are taken up at place `k`: penalised for the tokens
/// that were sampled for it, unless the penalty is one.
pub open spec fn takes_up(talk: Talk, k: int, i: usize, config: GenerationConfig) -> bool {
    if config.repetition_penalty.bits == DOUBLE_ONE {
        talk.asked[k] matches Request::Suppress(logits) && are_latest_for(talk, k, i, logits)
    } else {
        &&& talk.asked[k] matches Request::Penalize { logits, marks, penalty }
        &&& are_latest_for(talk, k, i, logits)
        &&& are_marks_for(talk, k, i, marks)
        &&& penalty == config.repetition_penalty
    }
}

/// That codes that are no audio are suppressed at place `k` in the logits of sequence
/// `i`, behind the penalty where there is one.
pub open spec fn suppresses(talk: Talk, k: int, i: usize, config: GenerationConfig) -> bool {
    if config.repetition_penalty.bits == DOUBLE_ONE {
        takes_up(talk, k, i, config)
    } else {
        &&& 0 < k
        &&& takes_up(talk, k - 1, i, config)
        &&& talk.asked[k] matches Request::Suppress(logits)
        &&& talk.replies[k - 1] == Reply::Tensor(logits)
    }
}

/// That a token is sampled at place `k` for sequence `i` by this configuration: from its
/// suppressed logits, in which end-of-sequence has no chance as long as fewer tokens were
/// sampled for it than have to be, and is as it was from then on.
pub open spec fn samples(talk: Talk, k: int, i: usize, config: GenerationConfig) -> bool {
    &&& 0 < k
    &&& suppresses(talk, k - 1, i, config)
    &&& talk.replies[k - 1] matches Reply::Tensor(suppressed)
    &&& talk.asked[k] matches Request::Sample { sequence, logits, config: by }
    &&& sequence == i
    &&& by == config
    &&& may_end_after(suppressed, config, talk.count(k, Task::SampleFor(i)), logits)
}

/// Marks stay those of a sequence, where no token is sampled for it.
proof fn lemma_marks_stay(talk: Talk, k: int, i: usize, marks: Tensor)
    requires
        0 <= k,
        are_marks_for(talk, k, i, marks),
        !is_task(talk.asked[k], Task::SampleFor(i)),
    ensures
        are_marks_for(talk, k + 1, i, marks),
{
    assert forall|v: int| 0 <= v < CODEC_VOCAB_SIZE implies #[trigger] tensor_cells(marks)[v]
        == if has_sampled_for(talk, k + 1, i, v) {
        ONE as int
    } else {
        0
    } by {
        if has_sampled_for(talk, k + 1, i, v) {
            let j = choose|j: int| 0 <= j < k + 1 && #[trigger] is_sampled_at(talk, j, i, v);
            assert(0 <= j < k && is_sampled_at(talk, j, i, v));
        }
        if has_sampled_for(talk, k, i, v) {
            let j = choose|j: int| 0 <= j < k && #[trigger] is_sampled_at(talk, j, i, v);
            assert(0 <= j < k + 1 && is_sampled_at(talk, j, i, v));
        }
    }
}

/// The marks of a sequence with one more token.
proof fn lemma_marks_grow(talk: Talk, k: int, i: usize, before: Tensor, token: Tensor, id: u32, marks: Tensor)
    requires
        0 <= k,
        are_marks_for(talk, k, i, before),
        is_task(talk.asked[k], Task::SampleFor(i)),
        talk.replies[k] == Reply::Tensor(token),
        tensor_cells(token)[0] == id,
        grid(marks) == crate::generation::marked(grid(before), id, CODEC_VOCAB_SIZE),
    ensures
        are_marks_for(talk, k + 1, i, marks),
{
    assert(tensor_cells(marks) == grid(marks).cells);
    assert(tensor_cells(before) == grid(before).cells);
    assert forall|v: int| 0 <= v < CODEC_VOCAB_SIZE implies #[trigger] tensor_cells(marks)[v]
        == if has_sampled_for(talk, k + 1, i, v) {
        ONE as int
    } else {
        0
    } by {
        assert(tensor_cells(before)[v] == if has_sampled_for(talk, k, i, v) {
            ONE as int
        } else {
            0
        });
        if has_sampled_for(talk, k, i, v) {
            let j = choose|j: int| 0 <= j < k && #[trigger] is_sampled_at(talk, j, i, v);
            assert(0 <= j < k + 1 && is_sampled_at(talk, j, i, v));
        } else if v == id {
            assert(0 <= k < k + 1 && is_sampled_at(talk, k, i, v));
        } else if has_sampled_for(talk, k + 1, i, v) {
            let j = choose|j: int| 0 <= j < k + 1 && #[trigger] is_sampled_at(talk, j, i, v);
            assert(0 <= j < k && is_sampled_at(talk, j, i, v));
        }
    }
}

/// That sampling a token waits for the reply to the request at place `k`.
pub open spec fn step_come(talk: Talk, k: int, config: GenerationConfig, step: TokenStep) -> bool {
    let i = step.sequence;
    &&& step.wf()
    &&& step.config == config
    &&& step.token_count == talk.count(k, Task::SampleFor(i))
    &&& are_marks_for(talk, k, i, step.mask)
    &&& match step.phase {
        Phase::Penalizing => takes_up(talk, k, i, config) && talk.asked[k] is Penalize,
        Phase::Suppressing => suppresses(talk, k, i, config) && talk.asked[k] is Suppress,
        Phase::Sampling => samples(talk, k, i, config) && talk.asked[k] is Sample,
        _ => false,
    }
}

/// Sampling starts with the logits of a sequence.
proof fn lemma_step_starts(
    talk: Talk,
    k: int,
    config: GenerationConfig,
    i: usize,
    mask: Tensor,
    raw: Tensor,
    step: TokenStep,
)
    requires
        step.wf(),
        TokenStep::starts(
            config,
            i,
            talk.count(k, Task::SampleFor(i)) as usize,
            mask,
            raw,
            (step, talk.asked[k]),
        ),
        talk.count(k, Task::SampleFor(i)) <= usize::MAX,
        are_marks_for(talk, k, i, mask),
        are_raw_for(talk, k, i, raw),
    ensures
        step_come(talk, k, config, step),
        step.sequence == i,
{
    assert(tensor_dims(raw).len() > 1);
    assert(grid(raw).squeeze(1) == if tensor_dims(raw)[1] == 1 {
        grid(raw).reshape(tensor_dims(raw).remove(1))
    } else {
        grid(raw)
    });
    match talk.asked[k] {
        Request::Suppress(t) => {
            assert(are_raw_for(talk, k, i, raw) && are_read(raw, t));
        },
        Request::Penalize { logits, .. } => {
            assert(are_raw_for(talk, k, i, raw) && are_read(raw, logits));
        },
        _ => {},
    }
}

/// A reply leads on in sampling a token.
proof fn lemma_step(talk: Talk, k: int, config: GenerationConfig, step: TokenStep, turn: TokenTurn)
    requires
        0 <= k,
        step_come(talk, k, config, step),
        step.steps(talk.replies[k], turn),
        turn matches TokenTurn::Ask(next, ask) ==> talk.asked[k + 1] == ask && next.wf(),
    ensures
        turn matches TokenTurn::Ask(next, _) ==> step_come(talk, k + 1, config, next)
            && next.sequence == step.sequence && !(talk.asked[k] is Sample),
        turn matches TokenTurn::Token { id, token, mask } ==> {
            &&& is_task(talk.asked[k], Task::SampleFor(step.sequence))
            &&& talk.replies[k] == Reply::Tensor(token)
            &&& tensor_cells(token).len() > 0
            &&& tensor_cells(token)[0] == id
            &&& are_marks_for(talk, k + 1, step.sequence, mask)
        },
        !(talk.asked[k] is Norm),
        !(talk.asked[k] is Forward),
        !(talk.asked[k] is CodecHead),
{
    let i = step.sequence;
    match (step.phase, talk.replies[k]) {
        (Phase::Sampling, Reply::Tensor(t)) => {
            if let TokenTurn::Token { id, token, mask } = turn {
                lemma_marks_grow(talk, k, i, step.mask, token, id, mask);
            }
        },
        (Phase::Suppressing, Reply::Tensor(t)) => {
            lemma_marks_stay(talk, k, i, step.mask);
            let logits = talk.asked[k + 1]->Sample_logits;
            assert(tensor_cells(logits) == grid(logits).cells);
            assert(tensor_dims(logits) == grid(logits).dims);
            assert(may_end_after(t, config, talk.count(k + 1, Task::SampleFor(i)), logits));
        },
        _ => {
            lemma_marks_stay(talk, k, i, step.mask);
        },
    }
}


/// That so many tokens were sampled for sequence `i`, and this one last.
pub open spec fn has_token(talk: Talk, k: int, i: usize, count: int, token: Tensor) -> bool {
    talk.count(k, Task::SampleFor(i)) == count && talk.told(k, Task::SampleFor(i), token)
}

/// That the masks mark the tokens of their own sequences.
pub open spec fn masks_come(talk: Talk, k: int, masks: Seq<Tensor>) -> bool {
    forall|i: usize| i < masks.len() ==> are_marks_for(talk, k, i, #[trigger] masks[i as int])
}

/// That the sequences that have ended had to: their end was sampled for them, or they
/// have as many frames as they may have.
pub open spec fn has_ends_for(talk: Talk, k: int, configs: Seq<GenerationConfig>, b: Batch) -> bool {
    forall|i: usize|
        i < b.done@.len() && #[trigger] b.done@[i as int] ==> talk.count(k, Task::Round)
            >= configs[i as int].max_new_tokens || (configs[i as int].eos_token_id matches Some(end)
            && has_sampled_for(talk, k, i, end as int))
}

/// That each sequence that has not ended has a token for the next frame.
pub open spec fn tokens_come(talk: Talk, k: int, b: Batch) -> bool {
    forall|i: usize|
        i < b.done@.len() && !b.done@[i as int] ==> has_token(
            talk,
            k,
            i,
            b.index + 1,
            #[trigger] b.tokens@[i as int],
        )
}

/// What is known of the sequences between two rounds.
pub open spec fn seqs_come(
    talk: Talk,
    k: int,
    texts: Seq<Seq<char>>,
    configs: Seq<GenerationConfig>,
    b: Batch,
) -> bool {
    &&& batch_come(talk, k, texts, base_of(b), b)
    &&& hiddens_come(talk, k, base_of(b), b)
    &&& talk.count(k, Task::Round) == b.index
    &&& tokens_come(talk, k, b)
    &&& has_ends_for(talk, k, configs, b)
    &&& b.ends@ == ends_of(configs)
}

/// What is known of the sequences while the next tokens are sampled, `m` of them so far.
pub open spec fn next_come(
    talk: Talk,
    k: int,
    texts: Seq<Seq<char>>,
    configs: Seq<GenerationConfig>,
    played: Played,
    m: int,
) -> bool {
    let b = played.batch;
    &&& batch_come(talk, k, texts, base_of(b), b)
    &&& hiddens_come(talk, k, base_of(b), b)
    &&& indices(played.active@) == actives(b.done@)
    &&& talk.count(k, Task::Round) == b.index
    &&& b.index > 0
    &&& talk.told(k, Task::Head, played.logits)
    &&& has_ends_for(talk, k, configs, b)
    &&& b.ends@ == ends_of(configs)
    &&& forall|p: int|
        0 <= p < played.active@.len() ==> if p < m {
            has_token(
                talk,
                k,
                #[trigger] played.active@[p],
                b.index + 1,
                b.tokens@[played.active@[p] as int],
            )
        } else {
            talk.count(k, Task::SampleFor(played.active@[p])) == b.index
        }
}

/// That a streamed synthesis waits for the reply to the request at place `k`.
#[verifier::opaque]
pub open spec fn stage_come(
    talk: Talk,
    k: int,
    texts: Seq<Seq<char>>,
    configs: Seq<GenerationConfig>,
    s: BatchStreaming,
) -> bool {
    &&& s.configs@ == configs
    &&& s.configs@.len() == texts.len()
    &&& s.buffers@.len() == texts.len()
    &&& s.masks@.len() == texts.len()
    &&& s.limits@ == limits_of(configs)
    &&& masks_come(talk, k, s.masks@)
    &&& match s.stage {
        StreamStage::Prompts(p) => prompts_come(talk, k, texts, p),
        StreamStage::Starting(b) => start_come(talk, k, texts, b),
        StreamStage::First { ready, zero, tokens, ids, step } => {
            &&& ready_known(talk, k, texts, ready)
            &&& talk.count(k, Task::Round) == 0
            &&& forall|i: int|
                0 <= i < tensor_cells(zero).len() ==> #[trigger] tensor_cells(zero)[i] == 0
            &&& first_come(talk, k, tokens@)
            &&& step.sequence == tokens@.len()
            &&& step_come(talk, k, configs[tokens@.len() as int], step)
        },
        StreamStage::Playing(r) => {
            &&& round_come(talk, k, texts, base_of(r.batch), r)
            &&& tokens_come(talk, k, r.batch)
            &&& has_ends_for(talk, k, configs, r.batch)
            &&& r.batch.ends@ == ends_of(configs)
            &&& goes_by(configs, r.batch)
        },
        StreamStage::Next { played, k: m, step } => {
            &&& next_come(talk, k, texts, configs, played, m as int)
            &&& m < played.active@.len()
            &&& step.sequence == played.active@[m as int]
            &&& step_come(talk, k, configs[played.active@[m as int] as int], step)
        },
        StreamStage::Decoding { batch, .. } => {
            &&& talk.asked[k] is Decode
            &&& batch matches Some(b) ==> seqs_come(talk, k, texts, configs, b)
        },
        StreamStage::Reading { batch, .. } => {
            &&& talk.asked[k] is ToAudio
            &&& batch matches Some(b) ==> seqs_come(talk, k, texts, configs, b)
        },
        StreamStage::Sent { .. } => false,
    }
}

/// That the first tokens of the first sequences were sampled, and nothing else.
pub open spec fn first_come(talk: Talk, k: int, tokens: Seq<Tensor>) -> bool {
    &&& forall|i: usize| i < tokens.len() ==> has_token(talk, k, i, 1, #[trigger] tokens[i as int])
    &&& forall|i: usize| i >= tokens.len() ==> #[trigger] talk.count(k, Task::SampleFor(i)) == 0
}

/// That each sequence that has not ended has frames to come and a token that does not
/// end it.
pub open spec fn goes_by(configs: Seq<GenerationConfig>, b: Batch) -> bool {
    forall|i: int|
        0 <= i < b.done@.len() && !#[trigger] b.done@[i] ==> b.index < configs[i].max_new_tokens
            && configs[i].eos_token_id != Some(b.ids@[i])
}

/// What is known between two requests.
pub open spec fn rest_come(
    talk: Talk,
    k: int,
    texts: Seq<Seq<char>>,
    configs: Seq<GenerationConfig>,
    s: BatchStreaming,
) -> bool {
    &&& s.configs@ == configs
    &&& s.configs@.len() == texts.len()
    &&& s.buffers@.len() == texts.len()
    &&& s.masks@.len() == texts.len()
    &&& s.limits@ == limits_of(configs)
    &&& masks_come(talk, k, s.masks@)
}

/// What a turn at place `k` comes to.
pub open spec fn turn_come(
    talk: Talk,
    k: int,
    texts: Seq<Seq<char>>,
    configs: Seq<GenerationConfig>,
    turn: StreamTurn,
) -> bool {
    match turn {
        StreamTurn::Ask(next, ask) => talk.asked[k] == ask ==> stage_come(
            talk,
            k,
            texts,
            configs,
            next,
        ),
        StreamTurn::Chunk { rest, .. } => {
            &&& rest_come(talk, k, texts, configs, rest)
            &&& rest.stage matches StreamStage::Sent { batch, .. }
            &&& batch matches Some(b) ==> seqs_come(talk, k, texts, configs, b)
        },
        StreamTurn::Passed { rest, .. } => {
            &&& rest_come(talk, k, texts, configs, rest)
            &&& rest.stage matches StreamStage::Sent { batch, .. }
            &&& batch matches Some(b) ==> seqs_come(talk, k, texts, configs, b)
        },
        StreamTurn::End => true,
    }
}

/// What comes of decoding the frames of a sequence.
proof fn lemma_decodes(
    talk: Talk,
    k: int,
    texts: Seq<Seq<char>>,
    configs: Seq<GenerationConfig>,
    s: BatchStreaming,
    batch: Option<Batch>,
    lane: int,
    turn: StreamTurn,
)
    requires
        rest_come(talk, k, texts, configs, s),
        batch matches Some(b) ==> seqs_come(talk, k, texts, configs, b),
        0 <= lane < s.count(),
        s.decodes(batch, lane, turn),
    ensures
        turn_come(talk, k, texts, configs, turn),
{
    reveal(stage_come);
    assert(crate::batch::all_values(s.buffers@).len() == s.buffers@.len());
    match turn {
        StreamTurn::Ask(next, _) => {
            assert(crate::batch::all_values(next.buffers@).len() == next.buffers@.len());
        },
        StreamTurn::Passed { rest, .. } => {
            assert(crate::batch::all_values(rest.buffers@).len() == rest.buffers@.len());
        },
        _ => {},
    }
}

/// What comes of the end.
proof fn lemma_flushes(
    talk: Talk,
    k: int,
    texts: Seq<Seq<char>>,
    configs: Seq<GenerationConfig>,
    s: BatchStreaming,
    from: int,
    turn: StreamTurn,
)
    requires
        0 <= from,
        rest_come(talk, k, texts, configs, s),
        s.flushes(from, turn),
    ensures
        turn_come(talk, k, texts, configs, turn),
{
    let lane = choose|lane: int|
        {
            &&& #[trigger] crate::batch_stream::is_next_lane(
                crate::batch::all_values(s.buffers@),
                from,
                lane,
            )
            &&& if lane < s.count() {
                s.decodes(None, lane, turn)
            } else {
                turn == StreamTurn::End
            }
        };
    if lane < s.count() {
        lemma_decodes(talk, k, texts, configs, s, None, lane, turn);
    }
}

/// What comes of the next tokens.
proof fn lemma_proceeds(
    talk: Talk,
    k: int,
    texts: Seq<Seq<char>>,
    configs: Seq<GenerationConfig>,
    s: BatchStreaming,
    batch: Batch,
    turn: StreamTurn,
)
    requires
        rest_come(talk, k, texts, configs, s),
        seqs_come(talk, k, texts, configs, batch),
        s.proceeds(batch, turn),
        turn.wf(),
    ensures
        turn_come(talk, k, texts, configs, turn),
{
    let done = ended(batch.done@, batch.ids@, batch.ends@, batch.index, s.limits@);
    if actives(done).len() > 0 {
        if let StreamTurn::Ask(next, ask) = turn {
            if talk.asked[k] == ask {
                reveal(stage_come);
                let r = next.stage->Playing_0;
                assert(next.wf());
                assert(r.wf());
                assert(hiddens_come(talk, k, base_of(batch), r.batch)) by {
                    assert forall|i: int|
                        0 <= i < r.batch.last_hiddens@.len() && !r.batch.done@[i] implies is_row_hidden(
                        talk,
                        k,
                        i,
                        base_of(batch),
                        #[trigger] r.batch.last_hiddens@[i],
                    ) by {
                        assert(!batch.done@[i]);
                    }
                }
                assert(tokens_come(talk, k, r.batch)) by {
                    assert forall|i: usize| i < r.batch.done@.len() && !r.batch.done@[i as int] implies has_token(
                        talk,
                        k,
                        i,
                        r.batch.index + 1,
                        #[trigger] r.batch.tokens@[i as int],
                    ) by {
                        assert(!batch.done@[i as int]);
                        assert(has_token(talk, k, i, batch.index + 1, batch.tokens@[i as int]));
                    }
                }
                assert(has_ends_for(talk, k, configs, r.batch)) by {
                    assert forall|i: usize|
                        i < r.batch.done@.len() && #[trigger] r.batch.done@[i as int] implies talk.count(
                        k,
                        Task::Round,
                    ) >= configs[i as int].max_new_tokens || (
                    configs[i as int].eos_token_id matches Some(end) && has_sampled_for(
                        talk,
                        k,
                        i,
                        end as int,
                    )) by {
                        lemma_ended(talk, k, configs, s, batch, i);
                    }
                }
                assert forall|i: int| 0 <= i < r.batch.done@.len() && !#[trigger] r.batch.done@[i] implies r.batch.index
                    < configs[i].max_new_tokens && configs[i].eos_token_id != Some(
                    r.batch.ids@[i],
                ) by {
                    assert(!done[i]);
                    assert(s.limits@[i] == configs[i].max_new_tokens);
                    assert(batch.ends@[i] == configs[i].eos_token_id);
                }
                assert(r.active@[0] == indices(r.active@)[0]);
                assert(indices(r.active@).len() == r.active@.len());
                assert(round_come(talk, k, texts, base_of(r.batch), r));
            }
        }
    } else {
        lemma_flushes(talk, k, texts, configs, s, 0, turn);
    }
}

/// A sequence ends where it has to.
proof fn lemma_ended(
    talk: Talk,
    k: int,
    configs: Seq<GenerationConfig>,
    s: BatchStreaming,
    batch: Batch,
    i: usize,
)
    requires
        batch.wf(),
        s.limits@ == limits_of(configs),
        s.limits@.len() == batch.done@.len(),
        batch.ends@ == ends_of(configs),
        tokens_come(talk, k, batch),
        has_ends_for(talk, k, configs, batch),
        talk.count(k, Task::Round) == batch.index,
        i < batch.done@.len(),
        ended(batch.done@, batch.ids@, batch.ends@, batch.index, s.limits@)[i as int],
    ensures
        talk.count(k, Task::Round) >= configs[i as int].max_new_tokens || (
        configs[i as int].eos_token_id matches Some(end) && has_sampled_for(
            talk,
            k,
            i,
            end as int,
        )),
{
    assert(s.limits@[i as int] == configs[i as int].max_new_tokens);
    assert(batch.ends@[i as int] == configs[i as int].eos_token_id);
    if !batch.done@[i as int] && batch.index < configs[i as int].max_new_tokens {
        let token = batch.tokens@[i as int];
        assert(has_token(talk, k, i, batch.index + 1, token));
        let j = talk.latest(k, Task::SampleFor(i));
        crate::talks::lemma_latest(talk, k, Task::SampleFor(i));
        assert(tensor_cells(token)[0] == batch.ids@[i as int]);
        assert(0 <= j < k && is_sampled_at(talk, j, i, batch.ids@[i as int] as int));
    }
}

/// What comes of chunks.
proof fn lemma_chunks(
    talk: Talk,
    k: int,
    texts: Seq<Seq<char>>,
    configs: Seq<GenerationConfig>,
    s: BatchStreaming,
    batch: Batch,
    from: int,
    turn: StreamTurn,
)
    requires
        0 <= from,
        rest_come(talk, k, texts, configs, s),
        seqs_come(talk, k, texts, configs, batch),
        s.chunks(batch, from, turn),
        turn.wf(),
    ensures
        turn_come(talk, k, texts, configs, turn),
{
    let lane = choose|lane: int|
        {
            &&& #[trigger] crate::batch_stream::is_next_lane(
                crate::batch::all_values(s.buffers@),
                from,
                lane,
            )
            &&& if lane < s.count() {
                s.decodes(Some(batch), lane, turn)
            } else {
                s.proceeds(batch, turn)
            }
        };
    if lane < s.count() {
        lemma_decodes(talk, k, texts, configs, s, Some(batch), lane, turn);
    } else {
        lemma_proceeds(talk, k, texts, configs, s, batch, turn);
    }
}

/// What comes of sampling the next token of a sequence.
proof fn lemma_samples_next(
    talk: Talk,
    k: int,
    texts: Seq<Seq<char>>,
    configs: Seq<GenerationConfig>,
    s: BatchStreaming,
    played: Played,
    m: int,
    turn: StreamTurn,
)
    requires
        0 <= m,
        rest_come(talk, k, texts, configs, s),
        next_come(talk, k, texts, configs, played, m),
        m <= played.active@.len(),
        s.samples_next(played, m, turn),
        turn.wf(),
    ensures
        turn_come(talk, k, texts, configs, turn),
{
    let b = played.batch;
    lemma_actives(b.done@);
    assert(indices(played.active@).len() == played.active@.len());
    if m < played.active@.len() {
        if let StreamTurn::Ask(next, ask) = turn {
            if talk.asked[k] == ask {
                reveal(stage_come);
                let a = played.active@[m];
                assert(indices(played.active@)[m] == a);
                let step = next.stage->Next_step;
                assert(next.wf());
                let row = choose|row: Tensor|
                    {
                        &&& grid(row) == grid(played.logits).narrow(0, a, 1)
                        &&& #[trigger] TokenStep::starts(
                            s.configs@[a as int],
                            a,
                            b.index,
                            s.masks@[a as int],
                            row,
                            (step, ask),
                        )
                    };
                assert(talk.count(k, Task::SampleFor(a)) == b.index);
                assert(are_marks_for(talk, k, a, s.masks@[a as int]));
                assert(are_raw_for(talk, k, a, row));
                lemma_step_starts(talk, k, configs[a as int], a, s.masks@[a as int], row, step);
            }
        }
    } else {
        assert(tokens_come(talk, k, b)) by {
            assert forall|i: usize| i < b.done@.len() && !b.done@[i as int] implies has_token(
                talk,
                k,
                i,
                b.index + 1,
                #[trigger] b.tokens@[i as int],
            ) by {
                assert(actives(b.done@).contains(i as int));
                let p = choose|p: int| 0 <= p < actives(b.done@).len() && actives(b.done@)[p] == i;
                assert(indices(played.active@)[p] == played.active@[p]);
                assert(played.active@[p] == i);
            }
        }
        if b.index % s.chunk_frames == 0 {
            lemma_chunks(talk, k, texts, configs, s, b, 0, turn);
        } else {
            lemma_proceeds(talk, k, texts, configs, s, b, turn);
        }
    }
}


/// Masks stay those of their sequences, where no token is sampled.
proof fn lemma_masks_stay(talk: Talk, k: int, masks: Seq<Tensor>)
    requires
        0 <= k,
        masks_come(talk, k, masks),
        !(talk.asked[k] is Sample),
    ensures
        masks_come(talk, k + 1, masks),
{
    assert forall|i: usize| i < masks.len() implies are_marks_for(
        talk,
        k + 1,
        i,
        #[trigger] masks[i as int],
    ) by {
        lemma_marks_stay(talk, k, i, masks[i as int]);
    }
}

/// The mask of the sequence that a token is sampled for changes, and no other.
proof fn lemma_masks_change(talk: Talk, k: int, masks: Seq<Tensor>, a: usize, mask: Tensor)
    requires
        0 <= k,
        masks_come(talk, k, masks),
        is_task(talk.asked[k], Task::SampleFor(a)),
        are_marks_for(talk, k + 1, a, mask),
        a < masks.len(),
    ensures
        masks_come(talk, k + 1, masks.update(a as int, mask)),
{
    let all = masks.update(a as int, mask);
    assert forall|i: usize| i < all.len() implies are_marks_for(
        talk,
        k + 1,
        i,
        #[trigger] all[i as int],
    ) by {
        if i != a {
            assert(all[i as int] == masks[i as int]);
            lemma_marks_stay(talk, k, i, masks[i as int]);
        }
    }
}

/// The sequences that had to end had to.
proof fn lemma_ends_stay(talk: Talk, k: int, configs: Seq<GenerationConfig>, b: Batch)
    requires
        0 <= k,
        has_ends_for(talk, k, configs, b),
    ensures
        has_ends_for(talk, k + 1, configs, b),
{
    assert forall|i: usize| i < b.done@.len() && #[trigger] b.done@[i as int] implies talk.count(
        k + 1,
        Task::Round,
    ) >= configs[i as int].max_new_tokens || (configs[i as int].eos_token_id matches Some(end)
        && has_sampled_for(talk, k + 1, i, end as int)) by {
        if talk.count(k, Task::Round) < configs[i as int].max_new_tokens {
            let end = configs[i as int].eos_token_id->0;
            let j = choose|j: int| 0 <= j < k && #[trigger] is_sampled_at(talk, j, i, end as int);
            assert(0 <= j < k + 1 && is_sampled_at(talk, j, i, end as int));
        }
    }
}

/// Tokens stay, where none is sampled.
proof fn lemma_tokens_stay(talk: Talk, k: int, b: Batch)
    requires
        0 <= k,
        tokens_come(talk, k, b),
        !(talk.asked[k] is Sample),
    ensures
        tokens_come(talk, k + 1, b),
{
    assert forall|i: usize| i < b.done@.len() && !b.done@[i as int] implies has_token(
        talk,
        k + 1,
        i,
        b.index + 1,
        #[trigger] b.tokens@[i as int],
    ) by {
        assert(has_token(talk, k, i, b.index + 1, b.tokens@[i as int]));
    }
}

/// What is known of the sequences stays known while chunks are decoded.
proof fn lemma_seqs_stay(
    talk: Talk,
    k: int,
    texts: Seq<Seq<char>>,
    configs: Seq<GenerationConfig>,
    b: Batch,
)
    requires
        0 <= k,
        seqs_come(talk, k, texts, configs, b),
        talk.asked[k] is Decode || talk.asked[k] is ToAudio,
    ensures
        seqs_come(talk, k + 1, texts, configs, b),
{
    lemma_batch_stays(talk, k, texts, base_of(b), b);
    lemma_hiddens_stay(talk, k, base_of(b), b);
    lemma_tokens_stay(talk, k, b);
    lemma_ends_stay(talk, k, configs, b);
}

/// What comes of sampling the first token of a sequence.
proof fn lemma_samples_first(
    talk: Talk,
    k: int,
    texts: Seq<Seq<char>>,
    configs: Seq<GenerationConfig>,
    s: BatchStreaming,
    ready: BatchReady,
    zero: Tensor,
    tokens: Seq<Tensor>,
    ids: Seq<u32>,
    turn: StreamTurn,
)
    requires
        rest_come(talk, k, texts, configs, s),
        ready_known(talk, k, texts, ready),
        ready.logits@.len() == texts.len(),
        ready.lens@.len() == texts.len(),
        talk.count(k, Task::Round) == 0,
        forall|i: int|
            0 <= i < tensor_cells(zero).len() ==> #[trigger] tensor_cells(zero)[i] == 0,
        first_come(talk, k, tokens),
        crate::batch_stream::are_tokens(tokens, ids),
        tokens.len() <= texts.len(),
        texts.len() > 0,
        s.samples_first(ready, zero, tokens, ids, turn),
        turn.wf(),
    ensures
        turn_come(talk, k, texts, configs, turn),
{
    let i = tokens.len() as int;
    if i < s.count() {
        if let StreamTurn::Ask(next, ask) = turn {
            if talk.asked[k] == ask {
                reveal(stage_come);
                assert(next.wf());
                let step = next.stage->First_step;
                let a = step.sequence;
                assert(a == i);
                assert(talk.count(k, Task::SampleFor(a)) == 0);
                assert(are_marks_for(talk, k, a, s.masks@[a as int]));
                assert(is_head_of(talk, k, a as int, ready.logits@[a as int]));
                assert(are_raw_for(talk, k, a, ready.logits@[a as int]));
                lemma_step_starts(
                    talk,
                    k,
                    configs[a as int],
                    a,
                    s.masks@[a as int],
                    ready.logits@[a as int],
                    step,
                );
            }
        }
    } else {
        let batch = choose|batch: Batch|
            {
                &&& batch.ends@ == ends_of(s.configs@)
                &&& batch.offset == ready.offset
                &&& batch.index == 0
                &&& batch.pad == ready.pad
                &&& batch.zero == zero
                &&& batch.tokens@ == tokens
                &&& batch.ids@ == ids
                &&& batch.done@ == Seq::new(s.count(), |i: int| false)
                &&& batch.last_hiddens == ready.last_hiddens
                &&& batch.trailings == ready.trailings
                &&& batch.lens == ready.lens
                &&& #[trigger] s.proceeds(batch, turn)
            };
        assert(ends_of(s.configs@).len() == s.configs@.len());
        assert(batch.wf());
        lemma_ready_batch(talk, k, texts, ready, batch);
        assert(tokens_come(talk, k, batch)) by {
            assert forall|i: usize| i < batch.done@.len() && !batch.done@[i as int] implies has_token(
                talk,
                k,
                i,
                batch.index + 1,
                #[trigger] batch.tokens@[i as int],
            ) by {
                assert(has_token(talk, k, i, 1, tokens[i as int]));
            }
        }
        assert(seqs_come(talk, k, texts, configs, batch));
        lemma_proceeds(talk, k, texts, configs, s, batch, turn);
    }
}


/// A reply on the first token of a sequence leads on.
proof fn lemma_takes_first(
    talk: Talk,
    k: int,
    texts: Seq<Seq<char>>,
    configs: Seq<GenerationConfig>,
    s: BatchStreaming,
    turn: StreamTurn,
)
    requires
        0 <= k,
        s.wf(),
        stage_come(talk, k, texts, configs, s),
        s.stage is First,
        s.steps(talk.replies[k], turn),
        turn.wf(),
    ensures
        turn_come(talk, k + 1, texts, configs, turn),
{
    reveal(stage_come);
    let ready = s.stage->First_ready;
    let zero = s.stage->First_zero;
    let tokens = s.stage->First_tokens;
    let ids = s.stage->First_ids;
    let step = s.stage->First_step;
    let m = tokens@.len() as int;
    let idle = s.idle();
    let t = choose|t: TokenTurn| #[trigger]
        step.steps(talk.replies[k], t) && idle.takes_first(ready, zero, tokens, ids, t, turn);
    match t {
        TokenTurn::Ask(next, ask) => {
            if talk.asked[k + 1] == ask {
                assert(next.wf());
                lemma_step(talk, k, configs[m], step, t);
                lemma_ready_stays(talk, k, texts, ready);
                lemma_masks_stay(talk, k, s.masks@);
                assert(first_come(talk, k + 1, tokens@)) by {
                    assert forall|i: usize| i < tokens@.len() implies has_token(
                        talk,
                        k + 1,
                        i,
                        1,
                        #[trigger] tokens@[i as int],
                    ) by {
                        assert(has_token(talk, k, i, 1, tokens@[i as int]));
                    }
                    assert forall|i: usize| i >= tokens@.len() implies #[trigger] talk.count(
                        k + 1,
                        Task::SampleFor(i),
                    ) == 0 by {
                        assert(talk.count(k, Task::SampleFor(i)) == 0);
                    }
                }
            }
        },
        TokenTurn::Token { id, token, mask } => {
            lemma_step(talk, k, configs[m], step, t);
            lemma_ready_stays(talk, k, texts, ready);
            let a = step.sequence;
            lemma_masks_change(talk, k, s.masks@, a, mask);
            let rest = choose|rest: BatchStreaming|
                {
                    &&& rest == (BatchStreaming { masks: rest.masks, ..idle })
                    &&& rest.masks@ == idle.masks@.update(tokens@.len() as int, mask)
                    &&& #[trigger] rest.samples_first(
                        ready,
                        zero,
                        tokens@.push(token),
                        ids@.push(id),
                        turn,
                    )
                };
            let all = tokens@.push(token);
            let numbers = ids@.push(id);
            assert(first_come(talk, k + 1, all)) by {
                assert forall|i: usize| i < all.len() implies has_token(
                    talk,
                    k + 1,
                    i,
                    1,
                    #[trigger] all[i as int],
                ) by {
                    if i < m {
                        assert(all[i as int] == tokens@[i as int]);
                        assert(has_token(talk, k, i, 1, tokens@[i as int]));
                    } else {
                        assert(i == a);
                        assert(talk.count(k, Task::SampleFor(i)) == 0);
                    }
                }
                assert forall|i: usize| i >= all.len() implies #[trigger] talk.count(
                    k + 1,
                    Task::SampleFor(i),
                ) == 0 by {
                    assert(talk.count(k, Task::SampleFor(i)) == 0);
                }
            }
            assert(crate::batch_stream::are_tokens(all, numbers)) by {
                assert forall|i: int| 0 <= i < all.len() implies tensor_cells(#[trigger] all[i]).len()
                    > 0 && tensor_cells(all[i])[0] == numbers[i] by {
                    if i < m {
                        assert(all[i] == tokens@[i]);
                    }
                }
            }
            lemma_samples_first(
                talk,
                k + 1,
                texts,
                configs,
                rest,
                ready,
                zero,
                all,
                numbers,
                turn,
            );
        },
    }
}

/// A reply on the next token of a sequence leads on.
proof fn lemma_takes_next(
    talk: Talk,
    k: int,
    texts: Seq<Seq<char>>,
    configs: Seq<GenerationConfig>,
    s: BatchStreaming,
    turn: StreamTurn,
)
    requires
        0 <= k,
        s.wf(),
        stage_come(talk, k, texts, configs, s),
        s.stage is Next,
        s.steps(talk.replies[k], turn),
        turn.wf(),
    ensures
        turn_come(talk, k + 1, texts, configs, turn),
{
    reveal(stage_come);
    let played = s.stage->Next_played;
    let m = s.stage->Next_k;
    let step = s.stage->Next_step;
    let idle = s.idle();
    let b = played.batch;
    let a = played.active@[m as int];
    let base = base_of(b);
    let t = choose|t: TokenTurn| #[trigger]
        step.steps(talk.replies[k], t) && idle.takes_next(played, m, t, turn);
    lemma_actives(b.done@);
    assert(indices(played.active@).len() == played.active@.len());
    assert forall|p: int| 0 <= p < played.active@.len() implies #[trigger] played.active@[p]
        < b.done@.len() by {
        assert(indices(played.active@)[p] == played.active@[p]);
    }
    lemma_batch_stays(talk, k, texts, base, b);
    lemma_ends_stay(talk, k, configs, b);
    match t {
        TokenTurn::Ask(next, ask) => {
            if talk.asked[k + 1] == ask {
                assert(next.wf());
                lemma_step(talk, k, configs[a as int], step, t);
                lemma_hiddens_stay(talk, k, base, b);
                lemma_masks_stay(talk, k, s.masks@);
                assert forall|p: int| 0 <= p < played.active@.len() implies if p < m {
                    has_token(
                        talk,
                        k + 1,
                        #[trigger] played.active@[p],
                        b.index + 1,
                        b.tokens@[played.active@[p] as int],
                    )
                } else {
                    talk.count(k + 1, Task::SampleFor(played.active@[p])) == b.index
                } by {
                    if p < m {
                        assert(has_token(
                            talk,
                            k,
                            played.active@[p],
                            b.index + 1,
                            b.tokens@[played.active@[p] as int],
                        ));
                    } else {
                        assert(talk.count(k, Task::SampleFor(played.active@[p])) == b.index);
                    }
                }
                assert(next_come(talk, k + 1, texts, configs, played, m as int));
            }
        },
        TokenTurn::Token { id, token, mask } => {
            lemma_step(talk, k, configs[a as int], step, t);
            lemma_hiddens_stay(talk, k, base, b);
            lemma_masks_change(talk, k, s.masks@, a, mask);
            let (rest, q) = choose|rest: BatchStreaming, q: Played|
                {
                    &&& rest == (BatchStreaming { masks: rest.masks, ..idle })
                    &&& rest.masks@ == idle.masks@.update(a as int, mask)
                    &&& q == (Played {
                        batch: Batch {
                            tokens: q.batch.tokens,
                            ids: q.batch.ids,
                            ..played.batch
                        },
                        ..played
                    })
                    &&& q.batch.tokens@ == played.batch.tokens@.update(a as int, token)
                    &&& q.batch.ids@ == played.batch.ids@.update(a as int, id)
                    &&& #[trigger] rest.samples_next(q, m + 1, turn)
                };
            assert(q.batch.wf()) by {
                assert forall|i: int| 0 <= i < q.batch.tokens@.len() implies tensor_cells(
                    #[trigger] q.batch.tokens@[i],
                ).len() > 0 && tensor_cells(q.batch.tokens@[i])[0] == q.batch.ids@[i] by {
                    if i != a {
                        assert(q.batch.tokens@[i] == b.tokens@[i]);
                    }
                }
            }
            assert forall|p: int| 0 <= p < q.active@.len() implies if p < m + 1 {
                has_token(
                    talk,
                    k + 1,
                    #[trigger] q.active@[p],
                    q.batch.index + 1,
                    q.batch.tokens@[q.active@[p] as int],
                )
            } else {
                talk.count(k + 1, Task::SampleFor(q.active@[p])) == q.batch.index
            } by {
                let i = played.active@[p];
                assert(indices(played.active@)[p] == i);
                assert(indices(played.active@)[m as int] == a);
                if p < m {
                    assert(actives(b.done@)[p] < actives(b.done@)[m as int]);
                    assert(i != a);
                    assert(has_token(talk, k, i, b.index + 1, b.tokens@[i as int]));
                } else if p == m {
                    assert(talk.count(k, Task::SampleFor(i)) == b.index);
                } else {
                    assert(actives(b.done@)[m as int] < actives(b.done@)[p]);
                    assert(i != a);
                    assert(talk.count(k, Task::SampleFor(i)) == b.index);
                }
            }
            assert(hiddens_come(talk, k + 1, base_of(q.batch), q.batch));
            assert(has_ends_for(talk, k + 1, configs, q.batch));
            assert(next_come(talk, k + 1, texts, configs, q, m + 1));
            lemma_samples_next(talk, k + 1, texts, configs, rest, q, m + 1, turn);
        },
    }
}

/// A reply in a round leads on.
proof fn lemma_plays(
    talk: Talk,
    k: int,
    texts: Seq<Seq<char>>,
    configs: Seq<GenerationConfig>,
    s: BatchStreaming,
    turn: StreamTurn,
)
    requires
        0 <= k,
        s.wf(),
        stage_come(talk, k, texts, configs, s),
        s.stage is Playing,
        s.steps(talk.replies[k], turn),
        turn.wf(),
    ensures
        turn_come(talk, k + 1, texts, configs, turn),
{
    reveal(stage_come);
    let r = s.stage->Playing_0;
    let idle = s.idle();
    let base = base_of(r.batch);
    let t = choose|t: RoundTurn| #[trigger]
        r.steps(talk.replies[k], t) && match t {
            RoundTurn::Ask(r, ask) => turn == StreamTurn::Ask(
                BatchStreaming { stage: StreamStage::Playing(r), ..s },
                ask,
            ),
            RoundTurn::Played(p) => idle.plays(p, turn),
        };
    match t {
        RoundTurn::Ask(next, ask) => {
            if talk.asked[k + 1] == ask {
                assert(next.wf());
                lemma_round(talk, k, texts, base, r, t);
                lemma_masks_stay(talk, k, s.masks@);
                lemma_tokens_stay(talk, k, r.batch);
                lemma_ends_stay(talk, k, configs, r.batch);
            }
        },
        RoundTurn::Played(p) => {
            assert(p.batch.wf());
            lemma_round(talk, k, texts, base, r, t);
            lemma_masks_stay(talk, k, s.masks@);
            lemma_ends_stay(talk, k, configs, r.batch);
            lemma_tokens_stay(talk, k, r.batch);
            let (rows, q, rest) = choose|rows: Seq<Vec<u32>>, q: Played, rest: BatchStreaming|
                {
                    &&& #[trigger] are_codes(p.frames@, rows)
                    &&& has_hiddens(p, q)
                    &&& rest == (BatchStreaming { buffers: rest.buffers, made: rest.made, ..idle })
                    &&& crate::batch::all_values(rest.buffers@) == crate::batch::with_frames(
                        crate::batch::all_values(idle.buffers@),
                        p.active@,
                        crate::codes::values(rows),
                    )
                    &&& rest.made@ == crate::batch::with_frames(
                        idle.made@,
                        p.active@,
                        crate::codes::values(rows),
                    )
                    &&& #[trigger] rest.samples_next(q, 0, turn)
                };
            let vals = crate::codes::values(rows);
            let before = crate::batch::all_values(idle.buffers@);
            let codes = crate::batch::with_frames(before, p.active@, vals);
            assert(before.len() == idle.buffers@.len());
            assert(crate::batch::all_values(rest.buffers@).len() == rest.buffers@.len());
            assert(codes.len() == before.len()) by {
                assert(vals.len() == rows.len());
                crate::batch::lemma_in_order(p.batch.done@, p.active@);
                crate::batch::lemma_with_frames(before, p.active@, vals);
            }
            let b = q.batch;
            assert(b.wf());
            lemma_actives(b.done@);
            assert(indices(p.active@).len() == p.active@.len());
            assert(hiddens_come(talk, k + 1, base_of(b), b)) by {
                assert forall|i: int| 0 <= i < b.last_hiddens@.len() && !b.done@[i] implies is_row_hidden(
                    talk,
                    k + 1,
                    i,
                    base_of(b),
                    #[trigger] b.last_hiddens@[i],
                ) by {
                    assert(actives(b.done@).contains(i));
                    let x = choose|x: int| 0 <= x < actives(b.done@).len() && actives(b.done@)[x] == i;
                    assert(indices(p.active@)[x] == p.active@[x]);
                    assert(p.active@[x] == i);
                    assert(grid(b.last_hiddens@[p.active@[x] as int]) == grid(p.hidden).narrow(
                        0,
                        p.active@[x],
                        1,
                    ));
                }
            }
            assert forall|x: int| 0 <= x < q.active@.len() implies if x < 0 {
                has_token(
                    talk,
                    k + 1,
                    #[trigger] q.active@[x],
                    b.index + 1,
                    b.tokens@[q.active@[x] as int],
                )
            } else {
                talk.count(k + 1, Task::SampleFor(q.active@[x])) == b.index
            } by {
                let i = p.active@[x];
                assert(indices(p.active@)[x] == i);
                assert(!b.done@[i as int]);
                assert(has_token(talk, k + 1, i, r.batch.index + 1, r.batch.tokens@[i as int]));
            }
            assert(has_ends_for(talk, k + 1, configs, b));
            assert(next_come(talk, k + 1, texts, configs, q, 0));
            lemma_samples_next(talk, k + 1, texts, configs, rest, q, 0, turn);
        },
    }
}


/// A reply leads on in a streamed synthesis.
proof fn lemma_stage(
    talk: Talk,
    k: int,
    texts: Seq<Seq<char>>,
    configs: Seq<GenerationConfig>,
    s: BatchStreaming,
    turn: StreamTurn,
)
    requires
        0 <= k,
        s.wf(),
        stage_come(talk, k, texts, configs, s),
        s.steps(talk.replies[k], turn),
        turn.wf(),
    ensures
        turn_come(talk, k + 1, texts, configs, turn),
{
    let reply = talk.replies[k];
    let idle = s.idle();
    match s.stage {
        StreamStage::First { .. } => lemma_takes_first(talk, k, texts, configs, s, turn),
        StreamStage::Next { .. } => lemma_takes_next(talk, k, texts, configs, s, turn),
        StreamStage::Playing(_) => lemma_plays(talk, k, texts, configs, s, turn),
        StreamStage::Prompts(p) => {
            reveal(stage_come);
            let t = choose|t: PromptTurn| #[trigger]
                p.steps(reply, t) && match t {
                    PromptTurn::Ask(p, ask) => turn == StreamTurn::Ask(
                        BatchStreaming { stage: StreamStage::Prompts(p), ..s },
                        ask,
                    ),
                    PromptTurn::Built { embeds, ids } => {
                        &&& turn matches StreamTurn::Ask(next, ask)
                        &&& next == (BatchStreaming { stage: next.stage, ..s })
                        &&& next.stage matches StreamStage::Starting(b)
                        &&& BatchStart::starts(
                            embeds@,
                            ids,
                            greatest(s.limits@),
                            true,
                            s.device,
                            (b, ask),
                        )
                    },
                };
            lemma_masks_stay(talk, k, s.masks@);
            match t {
                PromptTurn::Ask(next, ask) => {
                    if talk.asked[k + 1] == ask {
                        lemma_prompts(talk, k, texts, p, t);
                    }
                },
                PromptTurn::Built { embeds, ids } => {
                    lemma_prompts(talk, k, texts, p, t);
                    if let StreamTurn::Ask(next, ask) = turn {
                        if talk.asked[k + 1] == ask {
                            lemma_start_begins(
                                talk,
                                k + 1,
                                texts,
                                embeds@,
                                ids,
                                greatest(s.limits@),
                                true,
                                s.device,
                                next.stage->Starting_0,
                            );
                        }
                    }
                },
            }
        },
        StreamStage::Starting(b) => {
            reveal(stage_come);
            let t = choose|t: BatchStartTurn| #[trigger]
                b.steps(reply, t) && match t {
                    BatchStartTurn::Ask(b, ask) => turn == StreamTurn::Ask(
                        BatchStreaming { stage: StreamStage::Starting(b), ..s },
                        ask,
                    ),
                    BatchStartTurn::Ready(ready) => exists|zero: Tensor|
                        {
                            &&& grid(zero) == crate::batch_synth::zero_input(
                                s.compute_dtype,
                                crate::tensor::device_location(s.device),
                                ready.width,
                            )
                            &&& #[trigger] idle.samples_first(
                                ready,
                                zero,
                                Seq::empty(),
                                Seq::empty(),
                                turn,
                            )
                        },
                };
            lemma_masks_stay(talk, k, s.masks@);
            match t {
                BatchStartTurn::Ask(next, ask) => {
                    if talk.asked[k + 1] == ask {
                        lemma_start(talk, k, texts, b, t);
                    }
                },
                BatchStartTurn::Ready(ready) => {
                    lemma_start(talk, k, texts, b, t);
                    let zero = choose|zero: Tensor|
                        {
                            &&& grid(zero) == crate::batch_synth::zero_input(
                                s.compute_dtype,
                                crate::tensor::device_location(s.device),
                                ready.width,
                            )
                            &&& #[trigger] idle.samples_first(
                                ready,
                                zero,
                                Seq::empty(),
                                Seq::empty(),
                                turn,
                            )
                        };
                    assert(tensor_cells(zero) == grid(zero).cells);
                    lemma_samples_first(
                        talk,
                        k + 1,
                        texts,
                        configs,
                        idle,
                        ready,
                        zero,
                        Seq::empty(),
                        Seq::empty(),
                        turn,
                    );
                },
            }
        },
        StreamStage::Decoding { batch, lane } => {
            reveal(stage_come);
            lemma_masks_stay(talk, k, s.masks@);
            if let Some(b) = batch {
                lemma_seqs_stay(talk, k, texts, configs, b);
            }
            if reply is Failed {
                lemma_goes_on(talk, k + 1, texts, configs, idle, batch, lane, turn);
            }
        },
        StreamStage::Reading { batch, lane } => {
            reveal(stage_come);
            lemma_masks_stay(talk, k, s.masks@);
            if let Some(b) = batch {
                lemma_seqs_stay(talk, k, texts, configs, b);
            }
            if reply is Failed {
                lemma_goes_on(talk, k + 1, texts, configs, idle, batch, lane, turn);
            }
        },
        StreamStage::Sent { .. } => {
            reveal(stage_come);
        },
    }
}

/// What comes of the end of a chunk.
proof fn lemma_goes_on(
    talk: Talk,
    k: int,
    texts: Seq<Seq<char>>,
    configs: Seq<GenerationConfig>,
    s: BatchStreaming,
    batch: Option<Batch>,
    lane: usize,
    turn: StreamTurn,
)
    requires
        rest_come(talk, k, texts, configs, s),
        batch matches Some(b) ==> seqs_come(talk, k, texts, configs, b),
        s.goes_on(batch, lane, turn),
        turn.wf(),
    ensures
        turn_come(talk, k, texts, configs, turn),
{
    match batch {
        Some(b) => lemma_chunks(talk, k, texts, configs, s, b, lane + 1, turn),
        None => lemma_flushes(talk, k, texts, configs, s, lane + 1, turn),
    }
}

/// That a streamed synthesis goes on behind a chunk with this turn.
pub open spec fn resumes(rest: BatchStreaming, turn: StreamTurn) -> bool {
    &&& rest.wf()
    &&& turn.wf()
    &&& rest.stage matches StreamStage::Sent { batch, lane }
    &&& rest.idle().goes_on(batch, lane, turn)
}

/// That a turn comes to this request: at once, or behind so many chunks.
pub open spec fn reaches(turn: StreamTurn, chunks: nat, next: BatchStreaming, ask: Request) -> bool
    decreases chunks,
{
    match turn {
        StreamTurn::Ask(s, r) => s == next && r == ask,
        StreamTurn::Chunk { rest, .. } => chunks > 0 && exists|t: StreamTurn| #[trigger]
            resumes(rest, t) && reaches(t, (chunks - 1) as nat, next, ask),
        StreamTurn::Passed { rest, .. } => chunks > 0 && exists|t: StreamTurn| #[trigger]
            resumes(rest, t) && reaches(t, (chunks - 1) as nat, next, ask),
        StreamTurn::End => false,
    }
}

/// That a reply leads to the next request.
#[verifier::opaque]
pub open spec fn stream_leads(
    s: BatchStreaming,
    reply: Reply,
    next: BatchStreaming,
    ask: Request,
) -> bool {
    &&& s.wf()
    &&& next.wf()
    &&& exists|turn: StreamTurn, chunks: nat|
        turn.wf() && #[trigger] s.steps(reply, turn) && #[trigger] reaches(turn, chunks, next, ask)
}

/// A turn comes to the next request.
proof fn lemma_reaches(
    talk: Talk,
    k: int,
    texts: Seq<Seq<char>>,
    configs: Seq<GenerationConfig>,
    turn: StreamTurn,
    chunks: nat,
    next: BatchStreaming,
)
    requires
        turn_come(talk, k, texts, configs, turn),
        reaches(turn, chunks, next, talk.asked[k]),
    ensures
        stage_come(talk, k, texts, configs, next),
    decreases chunks,
{
    match turn {
        StreamTurn::Ask(_, _) => {},
        StreamTurn::Chunk { rest, .. } => {
            let t = choose|t: StreamTurn| #[trigger]
                resumes(rest, t) && reaches(t, (chunks - 1) as nat, next, talk.asked[k]);
            if let StreamStage::Sent { batch, lane } = rest.stage {
                lemma_goes_on(talk, k, texts, configs, rest.idle(), batch, lane, t);
            }
            lemma_reaches(talk, k, texts, configs, t, (chunks - 1) as nat, next);
        },
        StreamTurn::Passed { rest, .. } => {
            let t = choose|t: StreamTurn| #[trigger]
                resumes(rest, t) && reaches(t, (chunks - 1) as nat, next, talk.asked[k]);
            if let StreamStage::Sent { batch, lane } = rest.stage {
                lemma_goes_on(talk, k, texts, configs, rest.idle(), batch, lane, t);
            }
            lemma_reaches(talk, k, texts, configs, t, (chunks - 1) as nat, next);
        },
        StreamTurn::End => {},
    }
}

/// A streamed synthesis of several texts as far as it has come, with what was asked and
/// replied.
pub struct StreamTalk {
    /// The state in which each request waits for its reply.
    pub states: Seq<BatchStreaming>,
    pub talk: Talk,
}

impl StreamTalk {
    /// Whether each reply leads from one request to the next.
    pub open spec fn wf(self) -> bool {
        &&& self.states.len() == self.talk.asked.len()
        &&& self.talk.replies.len() + 1 == self.talk.asked.len()
        &&& forall|i: int|
            0 <= i < self.talk.replies.len() ==> stream_leads(
                self.states[i],
                #[trigger] self.talk.replies[i],
                self.states[i + 1],
                self.talk.asked[i + 1],
            )
    }

    /// Whether the synthesis streams these requests.
    pub open spec fn streams(self, model: Qwen3TTS, requests: Seq<BatchRequest>) -> bool {
        let s = self.states[0];
        &&& self.wf()
        &&& requests.len() > 0
        &&& s.wf()
        &&& s.configs@ == stream_configs(requests)
        &&& s.stage matches StreamStage::Prompts(p)
        &&& model.prompts_with(p, requests, Seq::empty())
        &&& self.talk.asked[0] is RolePrefix
        &&& forall|i: int|
            0 <= i < s.masks@.len() ==> crate::generator::empty_mask(grid(#[trigger] s.masks@[i]))
    }
}

/// The states of a run have come to what was asked and replied.
pub proof fn lemma_run(
    run: StreamTalk,
    texts: Seq<Seq<char>>,
    configs: Seq<GenerationConfig>,
    k: int,
)
    requires
        run.wf(),
        run.states[0].wf(),
        stage_come(run.talk, 0, texts, configs, run.states[0]),
        0 <= k < run.talk.asked.len(),
    ensures
        run.states[k].wf(),
        stage_come(run.talk, k, texts, configs, run.states[k]),
    decreases k,
{
    if k > 0 {
        lemma_run(run, texts, configs, k - 1);
        let s = run.states[k - 1];
        let next = run.states[k];
        let reply = run.talk.replies[k - 1];
        assert(stream_leads(s, reply, run.states[k - 1 + 1], run.talk.asked[k - 1 + 1]));
        assert(exists|turn: StreamTurn, chunks: nat|
            turn.wf() && #[trigger] s.steps(reply, turn) && #[trigger] reaches(
                turn,
                chunks,
                next,
                run.talk.asked[k],
            ) && next.wf()) by {
            reveal(stream_leads);
        }
        let (turn, chunks) = choose|turn: StreamTurn, chunks: nat|
            turn.wf() && #[trigger] s.steps(reply, turn) && #[trigger] reaches(
                turn,
                chunks,
                next,
                run.talk.asked[k],
            ) && next.wf();
        lemma_stage(run.talk, k - 1, texts, configs, s, turn);
        lemma_reaches(run.talk, k, texts, configs, turn, chunks, next);
    }
}

/// The start of a streamed synthesis.
pub proof fn lemma_streams(run: StreamTalk, model: Qwen3TTS, requests: Seq<BatchRequest>)
    requires
        run.streams(model, requests),
    ensures
        stage_come(run.talk, 0, texts_of(requests), stream_configs(requests), run.states[0]),
{
    reveal(stage_come);
    let s = run.states[0];
    let p = s.stage->Prompts_0;
    assert(p.ids@.len() == 0);
    assert forall|i: usize| i < s.masks@.len() implies are_marks_for(
        run.talk,
        0,
        i,
        #[trigger] s.masks@[i as int],
    ) by {
        let mask = s.masks@[i as int];
        assert(tensor_cells(mask) == grid(mask).cells);
        assert forall|v: int| 0 <= v < CODEC_VOCAB_SIZE implies #[trigger] tensor_cells(mask)[v] == 0
            && !has_sampled_for(run.talk, 0, i, v) by {
            assert(grid(mask).cells[v] == 0);
        }
    }
}

/// What is known at a place.
proof fn lemma_place(talk: Talk, k: int, requests: Seq<BatchRequest>, s: BatchStreaming)
    requires
        s.wf(),
        stage_come(talk, k, texts_of(requests), stream_configs(requests), s),
    ensures
        talk.asked[k] matches Request::Sample { sequence, .. } ==> sequence < requests.len()
            && samples(talk, k, sequence, stream_configs(requests)[sequence as int]),
        talk.asked[k] matches Request::Forward { mask, .. } ==> mask is None ==> (
        s.stage matches StreamStage::Playing(r) && is_round_for(
            talk,
            k,
            requests,
            base_of(r.batch),
            r.batch.done@,
        )),
        talk.asked[k] is BatchAcoustic ==> (s.stage matches StreamStage::Playing(r)
            && is_prompt_len(talk, k, base_of(r.batch)) && r.batch.done@.len() == requests.len()
            && is_predicted(talk, k, base_of(r.batch), r.batch.done@)),
{
    reveal(stage_come);
    let configs = stream_configs(requests);
    match s.stage {
        StreamStage::Playing(r) => {
            if r.phase is Layers {
                let b = r.batch;
                let done = b.done@;
                let n = going_on(done, done.len() as int) as int;
                assert forall|i: usize| i < requests.len() implies (if #[trigger] done[i as int] {
                    talk.count(k, Task::Round) >= configs[i as int].max_new_tokens || (
                    configs[i as int].eos_token_id matches Some(end) && has_sampled_for(
                        talk,
                        k,
                        i,
                        end as int,
                    ))
                } else {
                    &&& talk.count(k, Task::Round) < configs[i as int].max_new_tokens
                    &&& talk.asked[k - 2 * n - 1 + going_on(done, i as int)] matches Request::EmbedToken(
                        token,
                    )
                    &&& talk.told(k, Task::SampleFor(i), token)
                    &&& configs[i as int].eos_token_id matches Some(end) ==> tensor_cells(token)[0]
                        != end
                }) by {
                    if !done[i as int] {
                        assert(has_token(talk, k, i, b.index + 1, b.tokens@[i as int]));
                        assert(tensor_cells(b.tokens@[i as int])[0] == b.ids@[i as int]);
                    }
                }
            }
        },
        StreamStage::Next { played, k: m, .. } => {
            lemma_actives(played.batch.done@);
            assert(indices(played.active@)[m as int] == played.active@[m as int]);
        },
        _ => {},
    }
}

/// That at place `k` the talker is given the round that follows for these requests: each
/// sequence that has not ended its own token and its own text, and a sequence has ended
/// where its own end was sampled or it has as many frames as its own request allows.
pub open spec fn is_round_for(
    talk: Talk,
    k: int,
    requests: Seq<BatchRequest>,
    base: usize,
    done: Seq<bool>,
) -> bool {
    let n = going_on(done, done.len() as int) as int;
    let f = talk.count(k, Task::Round);
    &&& is_prompt_len(talk, k, base)
    &&& is_round(talk, k, texts_of(requests), base, done)
    &&& forall|i: usize|
        i < requests.len() ==> {
            let config = stream_configs(requests)[i as int];
            if #[trigger] done[i as int] {
                f >= config.max_new_tokens || (config.eos_token_id matches Some(end)
                    && has_sampled_for(talk, k, i, end as int))
            } else {
                &&& f < config.max_new_tokens
                &&& talk.asked[k - 2 * n - 1 + going_on(done, i as int)] matches Request::EmbedToken(
                    token,
                )
                &&& talk.told(k, Task::SampleFor(i), token)
                &&& config.eos_token_id matches Some(end) ==> tensor_cells(token)[0] != end
            }
        }
}

/// In batched streaming each token is sampled for a sequence by the options of its own
/// request, from its own logits, penalised for its own tokens. As long as fewer tokens
/// were sampled for that sequence than have to be, end-of-sequence has no chance; from
/// then on its logit is that of the suppressed logits.
pub proof fn law_stream_samples(
    model: Qwen3TTS,
    requests: Seq<BatchRequest>,
    run: StreamTalk,
    k: int,
)
    requires
        run.streams(model, requests),
        0 <= k < run.talk.asked.len(),
        run.talk.asked[k] is Sample,
    ensures
        run.talk.asked[k] matches Request::Sample { sequence, .. } && sequence < requests.len()
            && samples(
            run.talk,
            k,
            sequence,
            options_or_default(requests[sequence as int].2).gen_config(),
        ),
{
    lemma_streams(run, model, requests);
    lemma_run(run, texts_of(requests), stream_configs(requests), k);
    lemma_place(run.talk, k, requests, run.states[k]);
}

/// In batched streaming the logit of end-of-sequence is handed to the sampler as the
/// suppressed logits have it, as soon as as many tokens were sampled for the sequence as
/// have to be, and is minus infinity before.
pub proof fn law_stream_may_end(
    model: Qwen3TTS,
    requests: Seq<BatchRequest>,
    run: StreamTalk,
    k: int,
    c: int,
)
    requires
        run.streams(model, requests),
        0 < k < run.talk.asked.len(),
        run.talk.asked[k] matches Request::Sample { logits, .. } && 0 <= c < tensor_cells(
            logits,
        ).len(),
    ensures
        ({
            let i = run.talk.asked[k]->Sample_sequence;
            let logits = run.talk.asked[k]->Sample_logits;
            let o = options_or_default(requests[i as int].2);
            let n = run.talk.count(k, Task::SampleFor(i));
            &&& run.talk.asked[k - 1] is Suppress
            &&& run.talk.replies[k - 1] matches Reply::Tensor(suppressed)
            &&& tensor_dims(logits) == tensor_dims(suppressed)
            &&& tensor_cells(logits)[c] == if n < o.min_new_tokens && o.eos_token_id is Some && c
                % tensor_dims(suppressed)[1] as int == o.eos_token_id->0 {
                NEG_INFINITY as int
            } else {
                tensor_cells(suppressed)[c]
            }
        }),
{
    law_stream_samples(model, requests, run, k);
    let i = run.talk.asked[k]->Sample_sequence;
    let logits = run.talk.asked[k]->Sample_logits;
    let suppressed = run.talk.replies[k - 1]->Tensor_0;
    assert(grid(logits).cells == tensor_cells(logits));
    assert(grid(suppressed).cells == tensor_cells(suppressed));
    assert(grid(logits).dims == tensor_dims(logits));
    assert(grid(suppressed).dims == tensor_dims(suppressed));
}

/// In batched streaming each text is spoken by its own sequence, as in a batch: the row
/// of a sequence that has not ended is the sum of the embedding of the token that was
/// sampled last for it, that of its acoustic codes, and its own position of the text of
/// its own request.
pub proof fn law_stream_rounds(
    model: Qwen3TTS,
    requests: Seq<BatchRequest>,
    run: StreamTalk,
    k: int,
)
    requires
        run.streams(model, requests),
        0 <= k < run.talk.asked.len(),
        run.talk.asked[k] matches Request::Forward { mask, .. } && mask is None,
    ensures
        exists|base: usize, done: Seq<bool>| #[trigger]
            is_round_for(run.talk, k, requests, base, done),
{
    lemma_streams(run, model, requests);
    lemma_run(run, texts_of(requests), stream_configs(requests), k);
    lemma_place(run.talk, k, requests, run.states[k]);
}

/// In batched streaming the acoustic codes of each sequence are predicted from what the
/// talker gave last for that sequence, and from the embedding of its own token.
pub proof fn law_stream_hiddens(
    model: Qwen3TTS,
    requests: Seq<BatchRequest>,
    run: StreamTalk,
    k: int,
)
    requires
        run.streams(model, requests),
        0 <= k < run.talk.asked.len(),
        run.talk.asked[k] is BatchAcoustic,
    ensures
        exists|base: usize, done: Seq<bool>|
            is_prompt_len(run.talk, k, base) && done.len() == requests.len()
                && #[trigger] is_predicted(run.talk, k, base, done),
{
    lemma_streams(run, model, requests);
    lemma_run(run, texts_of(requests), stream_configs(requests), k);
    lemma_place(run.talk, k, requests, run.states[k]);
}

} // verus!
