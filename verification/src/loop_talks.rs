//! What the loop asks for that generates frames: each request, told by what was asked
//! and replied before.
use crate::double::DOUBLE_ONE;
use crate::generator::{GenTurn, Generator, Phase};
use crate::options::{GenerationConfig, CODEC_VOCAB_SIZE};
use crate::prefill::Prefilled;
use crate::request::{Reply, Request};
use crate::talks::{
    are_marks, are_read, is_position, is_rest_of, is_sum_of, lemma_latest, may_end_after, Talk, Task,
};
use crate::tensor::{grid, tensor_cells, tensor_dims};
use candle_core::{Device, Tensor};
use vstd::prelude::*;

verus! {

/// Whether an in-context prompt with positions was laid out before place `k`.
pub open spec fn has_context(talk: Talk, k: int) -> bool {
    let c = talk.latest(k, Task::Context);
    c >= 0 && (talk.replies[c] matches Reply::Pair(prompt, _) && tensor_dims(prompt).len() > 1
        && tensor_dims(prompt)[1] > 0)
}

/// That the head was asked at place `j` for the last position of the in-context prompt:
/// the prompt went behind a mask through all layers, was normalized, and `last` is its
/// last position.
pub open spec fn is_context_end(talk: Talk, j: int, last: Tensor) -> bool {
    &&& 4 <= j
    &&& talk.asked[j - 4] is IclPrompt
    &&& talk.replies[j - 4] matches Reply::Pair(prompt, _)
    &&& tensor_dims(prompt).len() > 1
    &&& tensor_dims(prompt)[1] > 0
    &&& talk.asked[j - 3] matches Request::CausalMask { len, offset: behind }
    &&& len == tensor_dims(prompt)[1]
    &&& talk.replies[j - 3] matches Reply::Tensor(causal)
    &&& talk.asked[j - 2] matches Request::Forward { input, mask, offset }
    &&& input == prompt
    &&& mask == Some(causal)
    &&& offset == behind
    &&& talk.replies[j - 2] matches Reply::Tensor(gave)
    &&& talk.asked[j - 1] == Request::Norm(gave)
    &&& talk.replies[j - 1] matches Reply::Tensor(normalized)
    &&& talk.asked[j] == Request::CodecHead(last)
    &&& grid(last) == grid(normalized).narrow(1, (tensor_dims(prompt)[1] - 1) as usize, 1)
}

/// That `hidden` is what the talker gave last before place `k`: for the position that it
/// was stepped on, or for the last position of the prompt.
pub open spec fn is_hidden(talk: Talk, k: int, hidden: Tensor) -> bool {
    let j = talk.latest(k, Task::Talker);
    &&& 0 <= j
    &&& match (talk.asked[j], talk.replies[j]) {
        (Request::Step { .. }, Reply::Pair(gave, _)) => hidden == gave,
        (Request::CodecHead(last), Reply::Tensor(_)) => {
            &&& hidden == last
            &&& is_context_end(talk, j, last)
            &&& talk.latest(k, Task::Context) == j - 4
        },
        (Request::CodecHead(_), _) => false,
        (_, Reply::Pair(gave, _)) => {
            &&& tensor_dims(gave).len() > 1
            &&& tensor_dims(gave)[1] > 0
            &&& !has_context(talk, k)
            &&& grid(hidden) == grid(gave).narrow(1, (tensor_dims(gave)[1] - 1) as usize, 1)
        },
        _ => false,
    }
}

/// That `raw` are the logits that the talker gave last before place `k`.
pub open spec fn are_raw(talk: Talk, k: int, raw: Tensor) -> bool {
    let j = talk.latest(k, Task::Talker);
    &&& 0 <= j
    &&& match (talk.asked[j], talk.replies[j]) {
        (Request::CodecHead(_), Reply::Tensor(logits)) => raw == logits,
        (_, Reply::Pair(_, logits)) => raw == logits,
        _ => false,
    }
}

/// That `logits` are what the talker gave last, as they are read.
pub open spec fn are_latest(talk: Talk, k: int, logits: Tensor) -> bool {
    exists|raw: Tensor| #[trigger] are_raw(talk, k, raw) && are_read(raw, logits)
}

/// That the text to be fused with the frames is this one: what the in-context prompt
/// left over, or the text behind the first token; and that this stands for no text.
pub open spec fn is_spoken(talk: Talk, k: int, trailing: Tensor, pad: Tensor) -> bool {
    &&& talk.told(k, Task::TtsPad, pad)
    &&& tensor_dims(trailing).len() > 1
    &&& if has_context(talk, k) {
        talk.replies[talk.latest(k, Task::Context)] matches Reply::Pair(_, left) && left == trailing
    } else {
        talk.replies[0] matches Reply::Tokens(ids) && is_rest_of(
            talk,
            talk.latest(k, Task::TtsEos),
            ids@,
            trailing,
        )
    }
}

/// The positions of the prompt, with those of the in-context prompt.
pub open spec fn prompt_positions(talk: Talk, k: int) -> int {
    let p = talk.latest(k, Task::Prompt);
    let c = talk.latest(k, Task::Context);
    (match talk.replies[p] {
        Reply::Pair(gave, _) => tensor_dims(gave)[1] as int,
        _ => 0,
    }) + if has_context(talk, k) {
        match talk.replies[c] {
            Reply::Pair(prompt, _) => tensor_dims(prompt)[1] as int,
            _ => 0,
        }
    } else {
        0
    }
}

/// That the talker is given this at place `k`: the embedding of the last token, that of
/// its acoustic codes and the text of this frame, added up.
pub open spec fn is_given(talk: Talk, k: int, input: Tensor) -> bool {
    exists|embed: Tensor, sum: Tensor, trailing: Tensor, pad: Tensor, text: crate::grid::Grid|
        {
            &&& #[trigger] talk.told(k, Task::EmbedToken, embed)
            &&& talk.asked[k - 1] is AcousticSum
            &&& talk.replies[k - 1] == Reply::Tensor(sum)
            &&& #[trigger] is_spoken(talk, k, trailing, pad)
            &&& #[trigger] is_position(trailing, talk.count(k, Task::Step) as int, pad, text)
            &&& #[trigger] is_sum_of(grid(embed), grid(sum), text, grid(input))
        }
}

/// What the request at place `k` is, as far as it is one of the loop.
pub open spec fn follows(talk: Talk, k: int, config: GenerationConfig) -> bool {
    match talk.asked[k] {
        Request::Penalize { logits, marks, penalty } => {
            &&& are_latest(talk, k, logits)
            &&& are_marks(talk, k, marks)
            &&& penalty == config.repetition_penalty
        },
        Request::Suppress(logits) => if config.repetition_penalty.bits == DOUBLE_ONE {
            are_latest(talk, k, logits)
        } else {
            talk.asked[k - 1] is Penalize && talk.replies[k - 1] == Reply::Tensor(logits)
        },
        Request::Sample { sequence, logits, config: by } => {
            &&& sequence == 0
            &&& by == config
            &&& talk.asked[k - 1] is Suppress
            &&& talk.replies[k - 1] matches Reply::Tensor(suppressed)
            &&& may_end_after(suppressed, config, talk.count(k, Task::Sample), logits)
        },
        Request::EmbedToken(token) => {
            &&& talk.told(k, Task::Sample, token)
            &&& config.eos_token_id != Some(tensor_cells(token)[0] as u32)
            &&& talk.count(k, Task::Acoustic) < config.max_new_tokens
        },
        Request::Acoustic { hidden, embed } => {
            &&& is_hidden(talk, k, hidden)
            &&& talk.asked[k - 1] is EmbedToken
            &&& talk.replies[k - 1] == Reply::Tensor(embed)
        },
        Request::AcousticSum(codes) => {
            &&& talk.asked[k - 1] is Acoustic
            &&& talk.replies[k - 1] == Reply::Tensor(codes)
        },
        Request::Step { input, offset } => {
            &&& is_given(talk, k, input)
            &&& offset == prompt_positions(talk, k) + talk.count(k, Task::Step)
        },
        _ => true,
    }
}

/// That the prompt came to this before place `k`.
pub open spec fn comes_to(talk: Talk, k: int, f: Prefilled) -> bool {
    &&& is_hidden(talk, k, f.last_hidden)
    &&& are_raw(talk, k, f.logits)
    &&& is_spoken(talk, k, f.trailing, f.pad)
    &&& f.trailing_len == tensor_dims(f.trailing)[1]
    &&& f.offset == prompt_positions(talk, k)
    &&& talk.latest(k, Task::Prompt) >= 0
    &&& talk.count(k, Task::Step) == 0
    &&& talk.count(k, Task::Sample) == 0
    &&& talk.count(k, Task::Acoustic) == 0
}

/// That the generator has come to what was asked and replied before place `k`, and waits
/// for a reply to the request at place `k` unless it has a token ready.
pub open spec fn has_come(talk: Talk, k: int, g: Generator) -> bool {
    &&& g.wf()
    &&& is_hidden(talk, k, g.last_hidden)
    &&& are_marks(talk, k, g.penalty_mask)
    &&& is_spoken(talk, k, g.trailing, g.pad)
    &&& g.trailing_len == tensor_dims(g.trailing)[1]
    &&& g.offset == prompt_positions(talk, k) + talk.count(k, Task::Step)
    &&& talk.latest(k, Task::Prompt) >= 0
    &&& g.token_count == talk.count(k, Task::Sample)
    &&& g.frames == talk.count(k, Task::Acoustic)
    &&& match g.phase {
        Phase::Penalizing => talk.asked[k] is Penalize && g.config.repetition_penalty.bits
            != DOUBLE_ONE,
        Phase::Suppressing => talk.asked[k] is Suppress,
        Phase::Sampling => talk.asked[k] is Sample,
        Phase::Ready { id, token } => talk.told(k, Task::Sample, token) && tensor_cells(token)[0]
            == id,
        Phase::Embedding { id, token } => {
            &&& talk.asked[k] == Request::EmbedToken(token)
            &&& talk.told(k, Task::Sample, token)
            &&& tensor_cells(token)[0] == id
        },
        Phase::Predicting { id, token, embed } => {
            &&& talk.asked[k] is Acoustic
            &&& talk.told(k, Task::Sample, token)
            &&& tensor_cells(token)[0] == id
            &&& talk.told(k, Task::EmbedToken, embed)
        },
        Phase::Summing { embed, index } => {
            &&& talk.asked[k] is AcousticSum
            &&& talk.told(k, Task::EmbedToken, embed)
            &&& index == talk.count(k, Task::Step)
        },
        Phase::Stepping => talk.asked[k] is Step,
    }
    &&& talk.count(k, Task::Step) > 0 ==> talk.latest(k, Task::Talker) == talk.latest(k, Task::Step)
    &&& talk.count(k, Task::Step) == match g.phase {
        Phase::Summing { .. } | Phase::Stepping => g.frames - 1,
        _ => g.frames as int,
    }
}

/// Marks stay those of the tokens when a request for another thing is replied to.
pub proof fn lemma_marks_stay(talk: Talk, k: int, marks: Tensor)
    requires
        0 <= k,
        are_marks(talk, k, marks),
        !(talk.asked[k] is Sample),
    ensures
        are_marks(talk, k + 1, marks),
{
    assert forall|i: int| 0 <= i < CODEC_VOCAB_SIZE implies #[trigger] tensor_cells(marks)[i] == if talk.has_sampled(
        k + 1,
        i,
    ) {
        crate::grid::ONE as int
    } else {
        0
    } by {
        if talk.has_sampled(k + 1, i) {
            let j = choose|j: int|
                #![trigger talk.replies[j]]
                0 <= j < k + 1 && talk.asked[j] is Sample && (talk.replies[j] matches Reply::Tensor(t)
                    && tensor_cells(t)[0] == i);
            assert(j < k);
            assert(talk.has_sampled(k, i));
        }
        if talk.has_sampled(k, i) {
            let j = choose|j: int|
                #![trigger talk.replies[j]]
                0 <= j < k && talk.asked[j] is Sample && (talk.replies[j] matches Reply::Tensor(t)
                    && tensor_cells(t)[0] == i);
            assert(talk.replies[j] is Tensor);
            assert(talk.has_sampled(k + 1, i));
        }
    }
}


/// The marks of a token that was sampled.
proof fn lemma_marks_grow(talk: Talk, k: int, before: Tensor, token: Tensor, id: u32, marks: Tensor)
    requires
        0 <= k,
        are_marks(talk, k, before),
        talk.asked[k] is Sample,
        talk.replies[k] == Reply::Tensor(token),
        tensor_cells(token)[0] == id,
        grid(marks) == crate::generation::marked(grid(before), id, CODEC_VOCAB_SIZE),
    ensures
        are_marks(talk, k + 1, marks),
{
    assert(tensor_cells(marks) == grid(marks).cells);
    assert(tensor_cells(before) == grid(before).cells);
    assert forall|i: int| 0 <= i < CODEC_VOCAB_SIZE implies #[trigger] tensor_cells(marks)[i] == if talk.has_sampled(
        k + 1,
        i,
    ) {
        crate::grid::ONE as int
    } else {
        0
    } by {
        assert(tensor_cells(before)[i] == if talk.has_sampled(k, i) {
            crate::grid::ONE as int
        } else {
            0
        });
        if talk.has_sampled(k, i) {
            let j = choose|j: int|
                #![trigger talk.replies[j]]
                0 <= j < k && talk.asked[j] is Sample && (talk.replies[j] matches Reply::Tensor(t)
                    && tensor_cells(t)[0] == i);
            assert(talk.replies[j] is Tensor);
            assert(talk.has_sampled(k + 1, i));
        } else if i == id {
            assert(talk.replies[k] is Tensor);
            assert(talk.has_sampled(k + 1, i));
        } else if talk.has_sampled(k + 1, i) {
            let j = choose|j: int|
                #![trigger talk.replies[j]]
                0 <= j < k + 1 && talk.asked[j] is Sample && (talk.replies[j] matches Reply::Tensor(t)
                    && tensor_cells(t)[0] == i);
            assert(j < k);
            assert(talk.has_sampled(k, i));
        }
    }
}

/// Where logits are taken up, the request for it is the one that follows.
proof fn lemma_taken_up(
    talk: Talk,
    k: int,
    config: GenerationConfig,
    mask: Tensor,
    raw: Tensor,
    phase: Phase,
    ask: Request,
)
    requires
        crate::generator::opened(config, mask, raw, phase, ask),
        talk.asked[k] == ask,
        are_raw(talk, k, raw),
        are_marks(talk, k, mask),
    ensures
        follows(talk, k, config),
        phase is Penalizing || phase is Suppressing,
        phase is Penalizing ==> talk.asked[k] is Penalize && config.repetition_penalty.bits
            != DOUBLE_ONE,
        phase is Suppressing ==> talk.asked[k] is Suppress,
{
    assert(tensor_dims(raw).len() > 1);
    assert(grid(raw).squeeze(1) == if tensor_dims(raw)[1] == 1 {
        grid(raw).reshape(tensor_dims(raw).remove(1))
    } else {
        grid(raw)
    });
    match ask {
        Request::Suppress(t) => {
            assert(are_raw(talk, k, raw) && are_read(raw, t));
        },
        Request::Penalize { logits, .. } => {
            assert(are_raw(talk, k, raw) && are_read(raw, logits));
        },
        _ => {},
    }
}

/// Generation starts with what the prompt came to.
pub proof fn lemma_comes(talk: Talk, k: int, f: Prefilled, device: Device, g: Generator)
    requires
        0 <= k,
        comes_to(talk, k, f),
        Generator::starts(f, device, (g, talk.asked[k])),
        g.wf(),
    ensures
        has_come(talk, k, g),
        follows(talk, k, f.config),
{
    assert(!(exists|j: int| 0 <= j < k && #[trigger] talk.asked[j] is Sample)) by {
        lemma_latest(talk, k, Task::Sample);
    }
    assert(tensor_cells(g.penalty_mask) == grid(g.penalty_mask).cells);
    assert forall|i: int| 0 <= i < CODEC_VOCAB_SIZE implies #[trigger] tensor_cells(
        g.penalty_mask,
    )[i] == if talk.has_sampled(k, i) {
        crate::grid::ONE as int
    } else {
        0
    } by {
        if talk.has_sampled(k, i) {
            let j = choose|j: int|
                #![trigger talk.replies[j]]
                0 <= j < k && talk.asked[j] is Sample && (talk.replies[j] matches Reply::Tensor(t)
                    && tensor_cells(t)[0] == i);
            assert(talk.asked[j] is Sample);
        }
    }
    lemma_taken_up(talk, k, f.config, g.penalty_mask, f.logits, g.phase, talk.asked[k]);
}

/// What a reply leads the generator to is told by the talk, and so is what it asks next.
pub proof fn lemma_goes_on(talk: Talk, k: int, g: Generator, next: Generator, turn: GenTurn)
    requires
        0 <= k,
        has_come(talk, k, g),
        next.wf(),
        g.steps(talk.replies[k], next, turn),
        turn matches GenTurn::Ask(ask) ==> talk.asked[k + 1] == ask,
        turn matches GenTurn::Frame { ask, .. } ==> talk.asked[k + 1] == ask,
    ensures
        has_come(talk, k + 1, next),
        next.config == g.config,
        !(turn is Token) ==> follows(talk, k + 1, g.config) && !(talk.asked[k + 1] is EmbedToken),
        turn matches GenTurn::Frame { id, token, acoustic, .. } ==> talk.asked[k] is Acoustic
            && talk.replies[k] == Reply::Tensor(acoustic) && talk.told(k, Task::Sample, token)
            && tensor_cells(token)[0] == id,
        turn is Token ==> talk.asked[k] is Sample,
{
    match (g.phase, talk.replies[k]) {
        (Phase::Sampling, Reply::Tensor(t)) => {
            lemma_marks_grow(
                talk,
                k,
                g.penalty_mask,
                t,
                next.phase->Ready_id,
                next.penalty_mask,
            );
        },
        (Phase::Stepping, Reply::Pair(hidden, logits)) => {
            lemma_marks_stay(talk, k, g.penalty_mask);
            assert(are_raw(talk, k + 1, logits));
            lemma_taken_up(
                talk,
                k + 1,
                g.config,
                g.penalty_mask,
                logits,
                next.phase,
                talk.asked[k + 1],
            );
        },
        (Phase::Suppressing, Reply::Tensor(t)) => {
            lemma_marks_stay(talk, k, g.penalty_mask);
            let ask = talk.asked[k + 1];
            let logits = ask->Sample_logits;
            assert(tensor_cells(logits) == grid(logits).cells);
            assert(tensor_dims(logits) == grid(logits).dims);
            assert(may_end_after(t, g.config, talk.count(k + 1, Task::Sample), logits));
        },
        (Phase::Summing { embed, index }, Reply::Tensor(sum)) => {
            lemma_marks_stay(talk, k, g.penalty_mask);
            let input = talk.asked[k + 1]->Step_input;
            let text = crate::generation::text_for(
                grid(g.trailing),
                g.trailing_len as int,
                grid(g.pad),
                index,
            );
            assert(talk.told(k + 1, Task::EmbedToken, embed));
            assert(is_spoken(talk, k + 1, g.trailing, g.pad));
            assert(is_position(g.trailing, talk.count(k + 1, Task::Step) as int, g.pad, text));
            assert(is_sum_of(grid(embed), grid(sum), text, grid(input)));
            assert(is_given(talk, k + 1, input));
        },
        _ => {
            lemma_marks_stay(talk, k, g.penalty_mask);
        },
    }
}

/// A token that is ready is made a frame.
pub proof fn lemma_begins(talk: Talk, k: int, g: Generator)
    requires
        has_come(talk, k, g),
        g.phase matches Phase::Ready { token, .. } && talk.asked[k] == Request::EmbedToken(token),
    ensures
        g.phase matches Phase::Ready { id, token } && has_come(
            talk,
            k,
            (Generator { phase: Phase::Embedding { id, token }, ..g }),
        ),
{
}

} // verus!
