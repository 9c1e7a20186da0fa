//! What is asked in the course of a run, told by the requests and the replies alone.
//!
//! A run is a talk: the request at each place is answered by the reply at that place.
use crate::grid::{DType, Grid, NEG_INFINITY, ONE};
use crate::options::{GenerationConfig, CODEC_VOCAB_SIZE};
use crate::request::{Reply, Request};
use crate::tensor::{grid, is_converted, is_sum, tensor_cells, tensor_dims};
use candle_core::Tensor;
use vstd::prelude::*;

verus! {

/// What was asked and what was replied. The last request has no reply yet.
pub struct Talk {
    pub asked: Seq<Request>,
    pub replies: Seq<Reply>,
}

/// What requests are for.
pub enum Task {
    /// Runs the talker to the end of a prompt or on one more position.
    Talker,
    /// Runs the talker on a whole prompt.
    Prompt,
    /// Lays out an in-context prompt.
    Context,
    /// Suppresses codes that are no audio.
    Suppress,
    /// Samples a token.
    Sample,
    /// Samples a token for this sequence.
    SampleFor(usize),
    /// Embeds a token.
    EmbedToken,
    /// Predicts acoustic codes.
    Acoustic,
    /// Runs the talker on one more position.
    Step,
    /// Runs all layers of the talker on one more position of several sequences.
    Round,
    /// Normalizes what the layers gave.
    Norm,
    /// Gives logits.
    Head,
    /// The embedding that stands for no text.
    TtsPad,
    /// The embedding that ends a text.
    TtsEos,
    /// Tokenizes a text.
    Encode,
}

/// Whether a request is for this.
pub open spec fn is_task(r: Request, t: Task) -> bool {
    match t {
        Task::Talker => r is PrefillCustomVoice || r is PrefillVoiceDesign || r is PrefillVoiceClone
            || r is CodecHead || r is Step,
        Task::Prompt => r is PrefillCustomVoice || r is PrefillVoiceDesign || r is PrefillVoiceClone,
        Task::Context => r is IclPrompt,
        Task::Suppress => r is Suppress,
        Task::Sample => r is Sample,
        Task::SampleFor(i) => r matches Request::Sample { sequence, .. } && sequence == i,
        Task::EmbedToken => r is EmbedToken,
        Task::Acoustic => r is Acoustic,
        Task::Step => r is Step,
        Task::Round => r matches Request::Forward { mask, .. } && mask is None,
        Task::Norm => r is Norm,
        Task::Head => r is CodecHead,
        Task::TtsPad => r is TtsPad,
        Task::TtsEos => r is TtsEos,
        Task::Encode => r is Encode,
    }
}

impl Talk {
    /// The place of the last request for this before place `k`, or -1.
    pub open spec fn latest(self, k: int, t: Task) -> int
        decreases k,
    {
        if k <= 0 {
            -1
        } else if is_task(self.asked[k - 1], t) {
            k - 1
        } else {
            self.latest(k - 1, t)
        }
    }

    /// How many requests for this there are before place `k`.
    pub open spec fn count(self, k: int, t: Task) -> nat
        decreases k,
    {
        if k <= 0 {
            0
        } else {
            self.count(k - 1, t) + if is_task(self.asked[k - 1], t) {
                1nat
            } else {
                0nat
            }
        }
    }

    /// Whether the last request for this before place `k` was replied to with this
    /// tensor.
    pub open spec fn told(self, k: int, t: Task, tensor: Tensor) -> bool {
        self.latest(k, t) >= 0 && self.replies[self.latest(k, t)] == Reply::Tensor(tensor)
    }

    /// Whether this token was sampled before place `k`.
    pub open spec fn has_sampled(self, k: int, token: int) -> bool {
        exists|j: int|
            #![trigger self.replies[j]]
            0 <= j < k && self.asked[j] is Sample && (self.replies[j] matches Reply::Tensor(t)
                && tensor_cells(t)[0] == token)
    }
}

/// That `trailing` is the text behind the first of these tokens, as it was built up to
/// place `j`: the other tokens projected, where there are any, and the embedding that
/// ends a text.
pub open spec fn is_rest_of(talk: Talk, j: int, ids: Seq<u32>, trailing: Tensor) -> bool {
    &&& 0 <= j
    &&& talk.asked[j] is TtsEos
    &&& talk.replies[j] matches Reply::Tensor(end)
    &&& if ids.len() > 1 {
        &&& 0 < j
        &&& talk.asked[j - 1] matches Request::ProjectText(rest)
        &&& rest@ == ids.subrange(1, ids.len() as int)
        &&& talk.replies[j - 1] matches Reply::Tensor(projected)
        &&& grid(trailing) == grid(projected).join(grid(end), 1)
    } else {
        trailing == end
    }
}

/// That `text` is position `f` of a text, or what stands for no text where the text has
/// no such position.
pub open spec fn is_position(trailing: Tensor, f: int, pad: Tensor, text: Grid) -> bool {
    &&& tensor_dims(trailing).len() > 1
    &&& f < tensor_dims(trailing)[1] ==> text == grid(trailing).narrow(1, f as usize, 1)
    &&& f >= tensor_dims(trailing)[1] ==> text == grid(pad)
}

/// That `input` is the sum of three embeddings.
pub open spec fn is_sum_of(a: Grid, b: Grid, c: Grid, input: Grid) -> bool {
    exists|ab: Grid| #[trigger] is_sum(a, b, ab) && is_sum(ab, c, input)
}

/// That `logits` are the raw ones as single-precision floats, without their second axis
/// where it has one position.
pub open spec fn are_read(raw: Tensor, logits: Tensor) -> bool {
    &&& tensor_dims(raw).len() > 1
    &&& is_converted(
        if tensor_dims(raw)[1] == 1 {
            grid(raw).reshape(tensor_dims(raw).remove(1))
        } else {
            grid(raw)
        },
        DType::F32,
        grid(logits),
    )
}

/// That `logits` are the suppressed ones, but that end-of-sequence has no chance as long
/// as fewer than so many tokens were sampled.
pub open spec fn may_end_after(
    suppressed: Tensor,
    config: GenerationConfig,
    sampled: nat,
    logits: Tensor,
) -> bool {
    if config.eos_token_id is Some && sampled < config.min_new_tokens {
        let cols = tensor_dims(suppressed)[1] as int;
        &&& tensor_dims(logits) == tensor_dims(suppressed)
        &&& tensor_cells(logits).len() == tensor_cells(suppressed).len()
        &&& forall|i: int|
            0 <= i < tensor_cells(logits).len() ==> #[trigger] tensor_cells(logits)[i] == if i
                % cols == config.eos_token_id->0 {
                NEG_INFINITY as int
            } else {
                tensor_cells(suppressed)[i]
            }
    } else {
        grid(logits) == grid(suppressed)
    }
}

/// That the marks are one for the tokens that were sampled before place `k`, and zero
/// for the others.
pub open spec fn are_marks(talk: Talk, k: int, marks: Tensor) -> bool {
    &&& tensor_cells(marks).len() == CODEC_VOCAB_SIZE
    &&& forall|i: int|
        0 <= i < CODEC_VOCAB_SIZE ==> #[trigger] tensor_cells(marks)[i] == if talk.has_sampled(k, i) {
            ONE as int
        } else {
            0
        }
}

/// The last place before `k` is one for this, and there is none behind it.
pub proof fn lemma_latest(talk: Talk, k: int, t: Task)
    ensures
        ({
            let j = talk.latest(k, t);
            &&& -1 <= j
            &&& j < k || j == -1
            &&& j >= 0 ==> is_task(talk.asked[j], t) && talk.count(j, t) + 1 == talk.count(k, t)
            &&& j < 0 ==> talk.count(k, t) == 0
            &&& forall|i: int| j < i < k && 0 <= i ==> !is_task(#[trigger] talk.asked[i], t)
        }),
    decreases k,
{
    if k > 0 && !is_task(talk.asked[k - 1], t) {
        lemma_latest(talk, k - 1, t);
    }
}

/// There is a place for each number of requests for this.
pub proof fn lemma_nth(talk: Talk, k: int, t: Task, f: int) -> (j: int)
    requires
        0 <= f < talk.count(k, t),
    ensures
        0 <= j < k,
        is_task(talk.asked[j], t),
        talk.count(j, t) == f,
    decreases k,
{
    if is_task(talk.asked[k - 1], t) && talk.count(k - 1, t) == f {
        k - 1
    } else {
        lemma_nth(talk, k - 1, t, f)
    }
}

/// There are no fewer requests for this before a later place.
pub proof fn lemma_count_grows(talk: Talk, j: int, k: int, t: Task)
    requires
        j <= k,
    ensures
        talk.count(j, t) <= talk.count(k, t),
        0 <= j < k && is_task(talk.asked[j], t) ==> talk.count(j, t) < talk.count(k, t),
    decreases k - j,
{
    if j < k {
        lemma_count_grows(talk, j, k - 1, t);
    }
}

} // verus!
