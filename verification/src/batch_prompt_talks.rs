//! What is asked for the prompts of several texts, and what they are: told by the texts
//! and what was replied before.
use crate::batch_prompt::{
    clones, BatchItem, BatchPrefill, PromptPhase, PromptTurn, Shared,
};
use crate::grid::{cells_of, join_all, Grid};
use crate::request::{CodecTokens, Reply, Request};
use crate::talks::Talk;
use crate::tensor::{grid, is_converted, is_sum, tensor_cells};
use candle_core::Tensor;
use vstd::prelude::*;

verus! {

/// That a reply leads to a turn.
#[verifier::opaque]
pub open spec fn prompt_leads(p: BatchPrefill, reply: Reply, turn: PromptTurn) -> bool {
    p.wf() && p.steps(reply, turn)
}

/// The prompts of several texts as far as they have come, with what was asked and replied.
pub struct PromptTalk {
    /// The state in which each request waits for its reply.
    pub states: Seq<BatchPrefill>,
    pub talk: Talk,
}

impl PromptTalk {
    /// Whether each reply leads from one request to the next, from the role on.
    pub open spec fn wf(self) -> bool {
        &&& self.states.len() == self.talk.asked.len()
        &&& self.talk.replies.len() + 1 == self.talk.asked.len()
        &&& self.states[0].wf()
        &&& self.states[0].phase is Role
        &&& self.talk.asked[0] is RolePrefix
        &&& self.states.last().wf()
        &&& forall|i: int|
            0 <= i < self.talk.replies.len() ==> prompt_leads(
                self.states[i],
                #[trigger] self.talk.replies[i],
                PromptTurn::Ask(self.states[i + 1], self.talk.asked[i + 1]),
            )
    }

    /// The texts, with their voices.
    pub open spec fn items(self) -> Seq<BatchItem> {
        self.states[0].items@
    }

    /// The codec tokens.
    pub open spec fn tokens(self) -> CodecTokens {
        self.states[0].tokens
    }

    /// The place at which the first text is tokenized. Where a voice is cloned, what stands
    /// behind the speaker is embedded before.
    pub open spec fn base(self) -> int {
        if exists|i: int| 0 <= i < self.items().len() && (#[trigger] self.items()[i]).embedding is Some {
            3
        } else {
            2
        }
    }
}

/// The codec tokens that open the prompt of text `n`: that it thinks, in the language of
/// the text, and where no voice is cloned the preset speaker, and the start of speech.
pub open spec fn opening_tokens(run: PromptTalk, n: int) -> Seq<u32> {
    let t = run.tokens();
    let language = match run.items()[n].language {
        crate::request::Language::English => t.english,
        crate::request::Language::Other(id) => id,
    };
    if run.items()[n].embedding is Some {
        seq![t.think, t.think_bos, language, t.think_eos]
    } else {
        seq![t.think, t.think_bos, language, t.think_eos, t.serena, t.pad, t.bos]
    }
}

/// That these are the codec embeddings that open the prompt of text `n`: of its tokens,
/// and where a voice is cloned, its own speaker embedding behind them, followed by those
/// of padding and the start of speech.
pub open spec fn is_codec_of(run: PromptTalk, n: int, codec: Grid) -> bool {
    let start = run.states[0];
    &&& run.talk.replies[run.base() + 3 * n + 1] matches Reply::Tensor(embed)
    &&& match run.items()[n].embedding {
        None => codec == grid(embed).unsqueeze(0),
        Some(e) => {
            &&& run.talk.replies[2] matches Reply::Tensor(behind)
            &&& exists|speaker: Grid| #[trigger]
                is_converted(grid(e), start.compute_dtype, speaker) && codec == join_all(
                    seq![
                        grid(embed).unsqueeze(0),
                        speaker.reshape(seq![1usize, 1, start.hidden_size]),
                        grid(behind).unsqueeze(0),
                    ],
                    1,
                )
        },
    }
}

/// That the prompt of text `n` opens so: the role, then what stands for no text and the
/// start of a text, each added to a codec position. The codec position behind them is
/// left for the first token of the text.
pub open spec fn is_opened(run: PromptTalk, n: int, codec: Grid, hidden: Tensor) -> bool {
    &&& is_codec_of(run, n, codec)
    &&& run.talk.replies[0] matches Reply::Tensor(role)
    &&& run.talk.replies[1] matches Reply::Tensor(pads)
    &&& exists|fused: Grid| #[trigger]
        is_sum(grid(pads), codec.narrow(1, 0, 6), fused) && grid(hidden) == grid(role).join(
            fused,
            1,
        )
}

/// That this is the prompt of text `n`: how it opens, and the first token of the text
/// where there is one.
pub open spec fn is_prompt_of(run: PromptTalk, n: int, prompt: Tensor) -> bool {
    exists|codec: Grid, hidden: Tensor|
        {
            &&& #[trigger] is_opened(run, n, codec, hidden)
            &&& run.talk.replies[run.base() + 3 * n + 2] matches Reply::Maybe(first)
            &&& match first {
                Some(t) => grid(prompt) == grid(hidden).join(grid(t), 1),
                None => grid(prompt) == grid(hidden),
            }
        }
}

/// That the request at place `k` is that of text `n` that is due there: its tokens, the
/// codec tokens that open its prompt, or its first token on the codec position left for it.
pub open spec fn is_asked(run: PromptTalk, k: int, n: int) -> bool {
    let at = k - run.base() - 3 * n;
    if at == 0 {
        run.talk.asked[k] matches Request::Encode(text) && text@ == run.items()[n].text@
    } else if at == 1 {
        run.talk.asked[k] matches Request::EmbedCodec(t) && tensor_cells(t) == cells_of(
            opening_tokens(run, n),
        )
    } else {
        &&& at == 2
        &&& run.talk.asked[k] matches Request::FirstText { ids, bos }
        &&& run.talk.replies[k - 2] matches Reply::Tokens(tokens)
        &&& ids@ == tokens@
        &&& exists|codec: Grid| #[trigger]
            is_codec_of(run, n, codec) && grid(bos) == codec.narrow(1, 6, 1)
    }
}

/// That these are what all prompts share.
pub open spec fn are_shared(run: PromptTalk, shared: Shared) -> bool {
    &&& run.talk.replies[0] == Reply::Tensor(shared.role)
    &&& run.talk.replies[1] == Reply::Tensor(shared.pads)
    &&& shared.suffix matches Some(suffix) ==> (run.talk.replies[2] matches Reply::Tensor(behind)
        && grid(suffix) == grid(behind).unsqueeze(0))
}

/// That the prompts have come to what was asked and replied before place `k`.
#[verifier::opaque]
pub open spec fn state_come(run: PromptTalk, k: int, p: BatchPrefill) -> bool {
    let start = run.states[0];
    let n = p.embeds@.len() as int;
    &&& p.items == start.items
    &&& p.tokens == start.tokens
    &&& p.compute_dtype == start.compute_dtype
    &&& p.hidden_size == start.hidden_size
    &&& p.ids@.len() == n
    &&& forall|i: int| 0 <= i < n ==> is_prompt_of(run, i, #[trigger] p.embeds@[i])
    &&& forall|i: int|
        0 <= i < n ==> run.talk.replies[run.base() + 3 * i] == Reply::Tokens(#[trigger] p.ids@[i])
    &&& match p.phase {
        PromptPhase::Role => k == 0 && run.talk.asked[k] is RolePrefix,
        PromptPhase::Pads { role } => {
            &&& k == 1
            &&& run.talk.replies[0] == Reply::Tensor(role)
            &&& run.talk.asked[k] == Request::TtsPadBos(5)
        },
        PromptPhase::Suffix { role, pads } => {
            &&& k == 2
            &&& run.base() == 3
            &&& run.talk.replies[0] == Reply::Tensor(role)
            &&& run.talk.replies[1] == Reply::Tensor(pads)
            &&& run.talk.asked[k] matches Request::EmbedCodec(t)
            &&& tensor_cells(t) == cells_of(seq![p.tokens.pad, p.tokens.bos])
        },
        PromptPhase::Encoding(shared) => {
            &&& k == run.base() + 3 * n
            &&& are_shared(run, shared)
            &&& is_asked(run, k, n)
        },
        PromptPhase::Codec { shared, ids } => {
            &&& k == run.base() + 3 * n + 1
            &&& are_shared(run, shared)
            &&& is_asked(run, k, n)
            &&& run.talk.replies[k - 1] == Reply::Tokens(ids)
        },
        PromptPhase::First { shared, ids, hidden } => {
            &&& k == run.base() + 3 * n + 2
            &&& are_shared(run, shared)
            &&& is_asked(run, k, n)
            &&& run.talk.replies[k - 2] == Reply::Tokens(ids)
            &&& exists|codec: Grid| #[trigger] is_opened(run, n, codec, hidden)
        },
    }
}

/// The codec embeddings of a text come.
proof fn lemma_opens(run: PromptTalk, k: int, p: BatchPrefill, next: BatchPrefill)
    requires
        0 <= k,
        p.wf(),
        state_come(run, k, p),
        p.phase is Codec,
        p.steps(run.talk.replies[k], PromptTurn::Ask(next, run.talk.asked[k + 1])),
    ensures
        state_come(run, k + 1, next),
{
    reveal(state_come);
    let n = p.embeds@.len() as int;
    let shared = p.phase->Codec_shared;
    let ids = p.phase->Codec_ids;
    let embed = run.talk.replies[k]->Tensor_0;
    let hidden = next.phase->First_hidden;
    let bos = run.talk.asked[k + 1]->FirstText_bos;
    let codec = choose|codec: Grid| #[trigger]
        p.is_codec(shared, embed, codec) && crate::batch_prompt::is_opening(
            grid(shared.role),
            grid(shared.pads),
            codec,
            grid(hidden),
            grid(bos),
        );
    assert(is_codec_of(run, n, codec));
    assert(is_opened(run, n, codec, hidden));
    assert(is_asked(run, k + 1, n));
}

/// A reply leads on in the prompts.
proof fn lemma_state(run: PromptTalk, k: int, p: BatchPrefill, next: BatchPrefill)
    requires
        0 <= k,
        p.wf(),
        state_come(run, k, p),
        p.steps(run.talk.replies[k], PromptTurn::Ask(next, run.talk.asked[k + 1])),
    ensures
        state_come(run, k + 1, next),
{
    let n = p.embeds@.len() as int;
    match (p.phase, run.talk.replies[k]) {
        (PromptPhase::Codec { .. }, _) => {
            lemma_opens(run, k, p, next);
        },
        (PromptPhase::First { shared, ids, hidden }, Reply::Maybe(first)) => {
            reveal(state_come);
            let whole = choose|whole: Tensor| #[trigger]
                crate::batch_prompt::is_prompt(hidden, first, whole) && next.embeds@
                    == p.embeds@.push(whole);
            assert(is_prompt_of(run, n, whole));
            assert forall|i: int| 0 <= i < n + 1 implies is_prompt_of(
                run,
                i,
                #[trigger] next.embeds@[i],
            ) by {
                if i < n {
                    assert(next.embeds@[i] == p.embeds@[i]);
                }
            }
            assert forall|i: int| 0 <= i < n + 1 implies run.talk.replies[run.base() + 3 * i]
                == Reply::Tokens(#[trigger] next.ids@[i]) by {
                if i < n {
                    assert(next.ids@[i] == p.ids@[i]);
                }
            }
        },
        (PromptPhase::Encoding(shared), Reply::Tokens(ids)) => {
            reveal(state_come);
            let t = run.talk.asked[k + 1]->EmbedCodec_0;
            assert(grid(t).cells == tensor_cells(t));
            assert(crate::batch_prompt::codec_ids(
                p.tokens,
                p.item().language,
                p.item().embedding is Some,
            ) =~= opening_tokens(run, n));
        },
        (PromptPhase::Pads { .. }, _) => {
            reveal(state_come);
            if clones(p.items@) {
                let t = run.talk.asked[k + 1]->EmbedCodec_0;
                assert(grid(t).cells == tensor_cells(t));
            }
        },
        _ => {
            reveal(state_come);
        },
    }
}

/// Each request for the prompts finds them so far.
proof fn lemma_run(run: PromptTalk, k: int)
    requires
        run.wf(),
        0 <= k < run.talk.asked.len(),
    ensures
        run.states[k].wf(),
        state_come(run, k, run.states[k]),
    decreases k,
{
    assert(run.states[k].wf()) by {
        if k < run.talk.replies.len() {
            assert(prompt_leads(
                run.states[k],
                run.talk.replies[k],
                PromptTurn::Ask(run.states[k + 1], run.talk.asked[k + 1]),
            ));
            reveal(prompt_leads);
        }
    }
    if k == 0 {
        reveal(state_come);
    } else {
        lemma_run(run, k - 1);
        assert(prompt_leads(
            run.states[k - 1],
            run.talk.replies[k - 1],
            PromptTurn::Ask(run.states[k - 1 + 1], run.talk.asked[k - 1 + 1]),
        ));
        reveal(prompt_leads);
        lemma_state(run, k - 1, run.states[k - 1], run.states[k]);
    }
}

/// What is asked for the prompts of several texts: the role, what stands for no text five
/// times with the start of a text, what stands behind a cloned speaker where there is one,
/// and then for each text in turn its tokens, the codec tokens that open its prompt by its
/// own language and voice, and its first token.
pub proof fn law_prompts_asked(run: PromptTalk, k: int)
    requires
        run.wf(),
        0 <= k < run.talk.asked.len(),
    ensures
        k == 1 ==> run.talk.asked[k] == Request::TtsPadBos(5),
        k == 2 && run.base() == 3 ==> (run.talk.asked[k] matches Request::EmbedCodec(t)
            && tensor_cells(t) == cells_of(seq![run.tokens().pad, run.tokens().bos])),
        k >= run.base() ==> (k - run.base()) / 3 < run.items().len() && is_asked(
            run,
            k,
            (k - run.base()) / 3,
        ),
{
    lemma_run(run, k);
    reveal(state_come);
}

/// What the prompts of several texts are: each is that of its own text, and goes with the
/// tokens of that text.
pub proof fn law_prompts_built(
    run: PromptTalk,
    reply: Reply,
    embeds: Vec<Tensor>,
    ids: Vec<Vec<u32>>,
    n: int,
)
    requires
        run.wf(),
        run.states.last().steps(reply, PromptTurn::Built { embeds, ids }),
        0 <= n < run.items().len(),
    ensures
        embeds@.len() == run.items().len(),
        ids@.len() == run.items().len(),
        run.talk.replies[run.base() + 3 * n] == Reply::Tokens(ids@[n]),
        n + 1 < run.items().len() ==> is_prompt_of(run, n, embeds@[n]),
        n + 1 == run.items().len() ==> exists|codec: Grid, hidden: Tensor|
            #[trigger] is_opened(run, n, codec, hidden) && (reply matches Reply::Maybe(first)
                && match first {
                Some(t) => grid(embeds@[n]) == grid(hidden).join(grid(t), 1),
                None => grid(embeds@[n]) == grid(hidden),
            }),
{
    let k = run.talk.asked.len() - 1;
    lemma_run(run, k);
    reveal(state_come);
    let p = run.states[k];
    if let (PromptPhase::First { shared, ids: own, hidden }, Reply::Maybe(first)) = (p.phase, reply) {
        if n + 1 < run.items().len() {
            assert(embeds@[n] == p.embeds@[n]);
            assert(ids@[n] == p.ids@[n]);
        }
    }
}

} // verus!
