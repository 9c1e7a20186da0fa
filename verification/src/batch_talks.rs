//! What is asked for several texts side by side: what each sequence is given is told by
//! its own text.
use crate::batch_prompt::{BatchItem, BatchPrefill, PromptPhase, PromptTurn};
use crate::batch_start::{are_padded, BatchPhase, BatchReady, BatchStart, BatchStartTurn};
use crate::grid::{join_all, joinable, Grid};
use crate::padding::{is_padded, lemma_longest, mask_grid, positions, zero_positions};
use crate::request::{Reply, Request};
use crate::round::{actives, indices, lemma_actives, Batch, Played, Round, RoundPhase, RoundTurn};
use crate::synth_talks::{is_building, lemma_building, lemma_building_starts};
use crate::talks::{is_position, is_rest_of, is_sum_of, Talk, Task};
use crate::tensor::{device_location, grid, grids, tensor_cells, tensor_dims};
use crate::trailing::TrailingTurn;
use candle_core::{Device, Tensor};
use vstd::prelude::*;

verus! {

/// That the text of sequence `i` was tokenized at place `e`.
pub open spec fn is_tokenized_at(talk: Talk, e: int, i: int, text: Seq<char>, ids: Seq<u32>) -> bool {
    &&& talk.asked[e] matches Request::Encode(asked)
    &&& asked@ == text
    &&& talk.count(e, Task::Encode) == i
    &&& talk.replies[e] matches Reply::Tokens(tokens)
    &&& tokens@ == ids
}

/// That these are the tokens of the text of sequence `i`, which is the `i`th text to be
/// tokenized.
pub open spec fn is_tokenized(talk: Talk, k: int, i: int, text: Seq<char>, ids: Seq<u32>) -> bool {
    exists|e: int| 0 <= e < k && #[trigger] is_tokenized_at(talk, e, i, text, ids)
}

/// That the rest of the text of sequence `i` was built up to place `j`.
pub open spec fn is_built_at(talk: Talk, j: int, i: int, ids: Seq<u32>, trailing: Tensor) -> bool {
    talk.count(j, Task::TtsEos) == i && is_rest_of(talk, j, ids, trailing)
}

/// That `trailing` is the text of sequence `i` behind its first token: the rest of the
/// tokens of its own text, which is the `i`th to be ended.
pub open spec fn is_text_of(talk: Talk, k: int, i: int, text: Seq<char>, trailing: Tensor) -> bool {
    &&& tensor_dims(trailing).len() > 1
    &&& exists|ids: Seq<u32>, j: int|
        0 <= j < k && #[trigger] is_tokenized(talk, k, i, text, ids) && #[trigger] is_built_at(
            talk,
            j,
            i,
            ids,
            trailing,
        )
}

/// That this stands for no text in all sequences: what was replied with first.
pub open spec fn is_no_text(talk: Talk, k: int, pad: Tensor) -> bool {
    exists|j: int|
        0 <= j < k && #[trigger] talk.asked[j] is TtsPad && talk.count(j, Task::TtsPad) == 0
            && talk.replies[j] == Reply::Tensor(pad)
}

/// What was known of a text stays known.
proof fn lemma_tokenized_stays(talk: Talk, k: int, i: int, text: Seq<char>, ids: Seq<u32>)
    requires
        is_tokenized(talk, k, i, text, ids),
    ensures
        is_tokenized(talk, k + 1, i, text, ids),
{
    let e = choose|e: int| 0 <= e < k && #[trigger] is_tokenized_at(talk, e, i, text, ids);
    assert(0 <= e < k + 1 && is_tokenized_at(talk, e, i, text, ids));
}

/// What was known of the rest of a text stays known.
pub proof fn lemma_text_stays(talk: Talk, k: int, i: int, text: Seq<char>, trailing: Tensor)
    requires
        is_text_of(talk, k, i, text, trailing),
    ensures
        is_text_of(talk, k + 1, i, text, trailing),
{
    let (ids, j) = choose|ids: Seq<u32>, j: int|
        0 <= j < k && #[trigger] is_tokenized(talk, k, i, text, ids) && #[trigger] is_built_at(
            talk,
            j,
            i,
            ids,
            trailing,
        );
    lemma_tokenized_stays(talk, k, i, text, ids);
    assert(0 <= j < k + 1 && is_built_at(talk, j, i, ids, trailing));
}

/// What stands for no text stays.
pub proof fn lemma_no_text_stays(talk: Talk, k: int, pad: Tensor)
    requires
        is_no_text(talk, k, pad),
    ensures
        is_no_text(talk, k + 1, pad),
{
    let j = choose|j: int|
        0 <= j < k && #[trigger] talk.asked[j] is TtsPad && talk.count(j, Task::TtsPad) == 0
            && talk.replies[j] == Reply::Tensor(pad);
    assert(talk.asked[j] is TtsPad);
}

/// Whether no round was played and no token sampled before place `k`.
pub open spec fn is_unplayed(talk: Talk, k: int) -> bool {
    &&& talk.count(k, Task::Round) == 0
    &&& forall|i: usize| #[trigger] talk.count(k, Task::SampleFor(i)) == 0
}

/// Where something else is asked for, no round is played and no token sampled.
proof fn lemma_unplayed_stays(talk: Talk, k: int)
    requires
        0 <= k,
        is_unplayed(talk, k),
        !(talk.asked[k] is Sample),
        talk.asked[k] matches Request::Forward { mask, .. } ==> mask is Some,
    ensures
        is_unplayed(talk, k + 1),
{
    assert forall|i: usize| #[trigger] talk.count(k + 1, Task::SampleFor(i)) == 0 by {
        assert(talk.count(k, Task::SampleFor(i)) == 0);
    }
}

/// Whether the texts of these tokens are the first ones, in order.
pub open spec fn are_tokens_of(talk: Talk, k: int, texts: Seq<Seq<char>>, ids: Seq<Vec<u32>>) -> bool {
    forall|i: int|
        0 <= i < ids.len() ==> is_tokenized(talk, k, i, texts[i], (#[trigger] ids[i])@)
}

/// Tokens stay those of their texts.
proof fn lemma_tokens_stay(talk: Talk, k: int, texts: Seq<Seq<char>>, ids: Seq<Vec<u32>>)
    requires
        are_tokens_of(talk, k, texts, ids),
    ensures
        are_tokens_of(talk, k + 1, texts, ids),
{
    assert forall|i: int| 0 <= i < ids.len() implies is_tokenized(
        talk,
        k + 1,
        i,
        texts[i],
        (#[trigger] ids[i])@,
    ) by {
        lemma_tokenized_stays(talk, k, i, texts[i], ids[i]@);
    }
}

/// Whether these are the texts of a batch.
pub open spec fn are_texts(texts: Seq<Seq<char>>, items: Seq<BatchItem>) -> bool {
    &&& items.len() == texts.len()
    &&& forall|i: int| 0 <= i < items.len() ==> (#[trigger] items[i]).text@ == texts[i]
}

/// That the prompts of several texts have come to what was asked and replied.
pub open spec fn prompts_come(talk: Talk, k: int, texts: Seq<Seq<char>>, p: BatchPrefill) -> bool {
    &&& p.wf()
    &&& are_texts(texts, p.items@)
    &&& are_tokens_of(talk, k, texts, p.ids@)
    &&& is_unplayed(talk, k)
    &&& talk.count(k, Task::TtsEos) == 0
    &&& talk.count(k, Task::TtsPad) == 0
    &&& talk.count(k, Task::Head) == 0
    &&& match p.phase {
        PromptPhase::Role => talk.asked[k] is RolePrefix && talk.count(k, Task::Encode) == 0,
        PromptPhase::Pads { .. } => talk.asked[k] is TtsPadBos && talk.count(k, Task::Encode) == 0,
        PromptPhase::Suffix { .. } => talk.asked[k] is EmbedCodec && talk.count(k, Task::Encode)
            == 0,
        PromptPhase::Encoding(_) => {
            &&& talk.asked[k] matches Request::Encode(text)
            &&& text@ == texts[p.ids@.len() as int]
            &&& talk.count(k, Task::Encode) == p.ids@.len()
        },
        PromptPhase::Codec { ids, .. } => {
            &&& talk.asked[k] is EmbedCodec
            &&& is_tokenized(talk, k, p.ids@.len() as int, texts[p.ids@.len() as int], ids@)
            &&& talk.count(k, Task::Encode) == p.ids@.len() + 1
        },
        PromptPhase::First { ids, .. } => {
            &&& talk.asked[k] is FirstText
            &&& is_tokenized(talk, k, p.ids@.len() as int, texts[p.ids@.len() as int], ids@)
            &&& talk.count(k, Task::Encode) == p.ids@.len() + 1
        },
    }
}

/// A reply leads on in the prompts of several texts.
pub proof fn lemma_prompts(talk: Talk, k: int, texts: Seq<Seq<char>>, p: BatchPrefill, turn: PromptTurn)
    requires
        0 <= k,
        prompts_come(talk, k, texts, p),
        p.steps(talk.replies[k], turn),
        turn matches PromptTurn::Ask(next, ask) ==> talk.asked[k + 1] == ask && next.wf(),
    ensures
        turn matches PromptTurn::Ask(next, _) ==> prompts_come(talk, k + 1, texts, next),
        turn matches PromptTurn::Built { ids, .. } ==> {
            &&& ids@.len() == texts.len()
            &&& are_tokens_of(talk, k + 1, texts, ids@)
            &&& is_unplayed(talk, k + 1)
            &&& talk.count(k + 1, Task::TtsEos) == 0
            &&& talk.count(k + 1, Task::TtsPad) == 0
            &&& talk.count(k + 1, Task::Head) == 0
        },
{
    lemma_tokens_stay(talk, k, texts, p.ids@);
    lemma_unplayed_stays(talk, k);
    let n = p.ids@.len() as int;
    assert(p.items@[n].text@ == texts[n]);
    match (p.phase, talk.replies[k]) {
        (PromptPhase::Encoding(_), Reply::Tokens(ids)) => {
            assert(is_tokenized_at(talk, k, n, texts[n], ids@));
            assert(is_tokenized(talk, k + 1, n, texts[n], ids@));
        },
        (PromptPhase::Codec { ids, .. }, _) => {
            lemma_tokenized_stays(talk, k, n, texts[n], ids@);
        },
        (PromptPhase::First { ids, .. }, _) => {
            lemma_tokenized_stays(talk, k, n, texts[n], ids@);
            let all = p.ids@.push(ids);
            assert forall|i: int| 0 <= i < all.len() implies is_tokenized(
                talk,
                k + 1,
                i,
                texts[i],
                (#[trigger] all[i])@,
            ) by {
                if i < n {
                    assert(all[i] == p.ids@[i]);
                }
            }
            if n + 1 < p.items@.len() {
                assert(p.items@[n + 1].text@ == texts[n + 1]);
            }
        },
        _ => {},
    }
}

/// That these are the rests of the first texts, in order.
pub open spec fn are_texts_of(
    talk: Talk,
    k: int,
    texts: Seq<Seq<char>>,
    trailings: Seq<Tensor>,
    lens: Seq<usize>,
) -> bool {
    &&& trailings.len() == lens.len()
    &&& forall|i: int|
        0 <= i < trailings.len() ==> is_text_of(talk, k, i, texts[i], #[trigger] trailings[i])
            && lens[i] == tensor_dims(trailings[i])[1]
}

/// Texts stay what they are.
pub proof fn lemma_texts_stay(
    talk: Talk,
    k: int,
    texts: Seq<Seq<char>>,
    trailings: Seq<Tensor>,
    lens: Seq<usize>,
)
    requires
        are_texts_of(talk, k, texts, trailings, lens),
    ensures
        are_texts_of(talk, k + 1, texts, trailings, lens),
{
    assert forall|i: int| 0 <= i < trailings.len() implies is_text_of(
        talk,
        k + 1,
        i,
        texts[i],
        #[trigger] trailings[i],
    ) && lens[i] == tensor_dims(trailings[i])[1] by {
        lemma_text_stays(talk, k, i, texts[i], trailings[i]);
    }
}

/// That `last` is what the talker gave for the last position of the prompt of sequence
/// `i`, and that its logits were asked for.
pub open spec fn is_prompt_end(talk: Talk, k: int, i: int, len: usize, last: Tensor) -> bool {
    let m = talk.latest(k, Task::Norm);
    &&& 0 <= m
    &&& talk.replies[m] matches Reply::Tensor(normalized)
    &&& grid(last) == grid(normalized).narrow(0, i as usize, 1).narrow(1, (len - 1) as usize, 1)
}

/// That the logits of the prompt of sequence `i` were replied with at place `j`.
pub open spec fn is_head_at(talk: Talk, j: int, i: int, logits: Tensor) -> bool {
    &&& talk.asked[j] is CodecHead
    &&& talk.count(j, Task::Head) == i
    &&& talk.replies[j] == Reply::Tensor(logits)
}

/// That these are the logits of the prompt of sequence `i`: the `i`th to be replied with.
pub open spec fn is_head_of(talk: Talk, k: int, i: int, logits: Tensor) -> bool {
    exists|j: int| 0 <= j < k && #[trigger] is_head_at(talk, j, i, logits)
}

/// That these are the logits of the first prompts, in order.
pub open spec fn are_heads_of(talk: Talk, k: int, logits: Seq<Tensor>) -> bool {
    forall|i: int| 0 <= i < logits.len() ==> is_head_of(talk, k, i, #[trigger] logits[i])
}

/// Logits stay those of their prompts.
pub proof fn lemma_heads_stay(talk: Talk, k: int, logits: Seq<Tensor>)
    requires
        are_heads_of(talk, k, logits),
    ensures
        are_heads_of(talk, k + 1, logits),
{
    assert forall|i: int| 0 <= i < logits.len() implies is_head_of(talk, k + 1, i, #[trigger] logits[i]) by {
        let j = choose|j: int| 0 <= j < k && #[trigger] is_head_at(talk, j, i, logits[i]);
        assert(0 <= j < k + 1 && is_head_at(talk, j, i, logits[i]));
    }
}

/// That the talker was run at place `j` on prompts with so many positions.
pub open spec fn is_prompt_len_at(talk: Talk, j: int, len: usize) -> bool {
    &&& talk.asked[j] matches Request::Forward { input, mask, offset }
    &&& mask is Some
    &&& offset == 0
    &&& tensor_dims(input).len() > 1
    &&& tensor_dims(input)[1] == len
}

/// That the prompts that the talker was run on have so many positions.
pub open spec fn is_prompt_len(talk: Talk, k: int, len: usize) -> bool {
    exists|j: int| 0 <= j < k && #[trigger] is_prompt_len_at(talk, j, len)
}

/// The positions of the prompts stay.
proof fn lemma_len_stays(talk: Talk, k: int, len: usize)
    requires
        is_prompt_len(talk, k, len),
    ensures
        is_prompt_len(talk, k + 1, len),
{
    let j = choose|j: int| 0 <= j < k && #[trigger] is_prompt_len_at(talk, j, len);
    assert(0 <= j < k + 1 && is_prompt_len_at(talk, j, len));
}

/// That the talker on the prompts of several texts has come to what was asked and replied.
pub open spec fn start_come(talk: Talk, k: int, texts: Seq<Seq<char>>, b: BatchStart) -> bool {
    &&& b.wf()
    &&& b.ids@.len() == texts.len()
    &&& are_tokens_of(talk, k, texts, b.ids@)
    &&& is_unplayed(talk, k)
    &&& match b.phase {
        BatchPhase::Caching { input, .. } => {
            &&& tensor_dims(input).len() > 1
            &&& tensor_dims(input)[1] == b.len
            &&& talk.count(k, Task::Head) == 0
            &&& talk.asked[k] is NewBatchCaches || talk.asked[k] is NewGrowingCaches
            &&& talk.count(k, Task::TtsEos) == 0
            &&& talk.count(k, Task::TtsPad) == 0
        },
        BatchPhase::Layers => {
            &&& is_prompt_len_at(talk, k, b.len)
            &&& talk.count(k, Task::Head) == 0
            &&& talk.count(k, Task::TtsEos) == 0
            &&& talk.count(k, Task::TtsPad) == 0
        },
        BatchPhase::Norm => {
            &&& is_prompt_len(talk, k, b.len)
            &&& talk.count(k, Task::Head) == 0
            &&& talk.asked[k] is Norm
            &&& talk.count(k, Task::TtsEos) == 0
            &&& talk.count(k, Task::TtsPad) == 0
        },
        BatchPhase::Heads { hidden, last_hiddens, logits } => {
            &&& talk.count(k, Task::Head) == logits@.len()
            &&& are_heads_of(talk, k, logits@)
            &&& is_prompt_len(talk, k, b.len)
            &&& talk.asked[k] == Request::CodecHead(last_hiddens@.last())
            &&& talk.told(k, Task::Norm, hidden)
            &&& forall|i: int|
                0 <= i < last_hiddens@.len() ==> is_prompt_end(
                    talk,
                    k,
                    i,
                    b.len,
                    #[trigger] last_hiddens@[i],
                )
            &&& talk.count(k, Task::TtsEos) == 0
            &&& talk.count(k, Task::TtsPad) == 0
        },
        BatchPhase::Padding { last_hiddens, logits } => {
            &&& are_heads_of(talk, k, logits@)
            &&& is_prompt_len(talk, k, b.len)
            &&& talk.asked[k] is TtsPad
            &&& forall|i: int|
                0 <= i < last_hiddens@.len() ==> is_prompt_end(
                    talk,
                    k,
                    i,
                    b.len,
                    #[trigger] last_hiddens@[i],
                )
            &&& talk.count(k, Task::TtsEos) == 0
            &&& talk.count(k, Task::TtsPad) == 0
        },
        BatchPhase::Trailing { last_hiddens, logits, pad, trailings, lens, text } => {
            &&& are_heads_of(talk, k, logits@)
            &&& is_prompt_len(talk, k, b.len)
            &&& is_no_text(talk, k, pad)
            &&& forall|i: int|
                0 <= i < last_hiddens@.len() ==> is_prompt_end(
                    talk,
                    k,
                    i,
                    b.len,
                    #[trigger] last_hiddens@[i],
                )
            &&& are_texts_of(talk, k, texts, trailings@, lens@)
            &&& is_building(talk, k, b.ids@[trailings@.len() as int]@, text)
            &&& talk.count(k, Task::TtsEos) == trailings@.len() + if text is Padding {
                1nat
            } else {
                0nat
            }
        },
    }
}

/// That generation for several texts starts from what was asked and replied.
pub open spec fn ready_come(talk: Talk, k: int, texts: Seq<Seq<char>>, r: BatchReady) -> bool {
    is_unplayed(talk, k) && ready_known(talk, k, texts, r)
}

/// What is known of what generation for several texts starts from.
pub open spec fn ready_known(talk: Talk, k: int, texts: Seq<Seq<char>>, r: BatchReady) -> bool {
    &&& is_prompt_len(talk, k, r.offset)
    &&& are_heads_of(talk, k, r.logits@)
    &&& is_no_text(talk, k, r.pad)
    &&& r.trailings@.len() == texts.len()
    &&& are_texts_of(talk, k, texts, r.trailings@, r.lens@)
    &&& r.last_hiddens@.len() == texts.len()
    &&& forall|i: int|
        0 <= i < r.last_hiddens@.len() ==> is_prompt_end(
            talk,
            k,
            i,
            r.offset,
            #[trigger] r.last_hiddens@[i],
        )
}

/// What generation starts from stays known.
pub proof fn lemma_ready_stays(talk: Talk, k: int, texts: Seq<Seq<char>>, r: BatchReady)
    requires
        0 <= k,
        ready_known(talk, k, texts, r),
        !(talk.asked[k] is Norm),
    ensures
        ready_known(talk, k + 1, texts, r),
{
    lemma_len_stays(talk, k, r.offset);
    lemma_no_text_stays(talk, k, r.pad);
    lemma_heads_stay(talk, k, r.logits@);
    lemma_texts_stay(talk, k, texts, r.trailings@, r.lens@);
    assert forall|i: int| 0 <= i < r.last_hiddens@.len() implies is_prompt_end(
        talk,
        k + 1,
        i,
        r.offset,
        #[trigger] r.last_hiddens@[i],
    ) by {
        assert(is_prompt_end(talk, k, i, r.offset, r.last_hiddens@[i]));
    }
}

/// A reply leads on to the next text, or generation can start.
proof fn lemma_trailed(
    talk: Talk,
    k: int,
    texts: Seq<Seq<char>>,
    b: BatchStart,
    trailing: Tensor,
    len: usize,
)
    requires
        0 < k,
        start_come(talk, k, texts, b),
        b.phase matches BatchPhase::Trailing { trailings, text, .. } && text is Padding
            && is_rest_of(talk, k - 1, b.ids@[trailings@.len() as int]@, trailing),
        tensor_dims(trailing).len() > 1,
        len == tensor_dims(trailing)[1],
        talk.asked[k] is TtsPad,
    ensures
        b.phase matches BatchPhase::Trailing { trailings, lens, .. } && are_texts_of(
            talk,
            k + 1,
            texts,
            trailings@.push(trailing),
            lens@.push(len),
        ),
{
    if let BatchPhase::Trailing { trailings, lens, .. } = b.phase {
        let n = trailings@.len() as int;
        lemma_texts_stay(talk, k, texts, trailings@, lens@);
        lemma_tokens_stay(talk, k, texts, b.ids@);
        let ids = b.ids@[n]@;
        assert(is_tokenized(talk, k + 1, n, texts[n], ids));
        assert(talk.count(k - 1, Task::TtsEos) == n);
        assert(is_built_at(talk, k - 1, n, ids, trailing));
        assert(is_text_of(talk, k + 1, n, texts[n], trailing));
        let all = trailings@.push(trailing);
        assert forall|i: int| 0 <= i < all.len() implies is_text_of(
            talk,
            k + 1,
            i,
            texts[i],
            #[trigger] all[i],
        ) && lens@.push(len)[i] == tensor_dims(all[i])[1] by {
            if i < n {
                assert(all[i] == trailings@[i]);
            }
        }
    }
}

/// Tensors that are joined along the first axis keep the others.
proof fn lemma_join_dims(parts: Seq<Grid>)
    requires
        parts.len() > 0,
        parts[0].dims.len() > 1,
    ensures
        join_all(parts, 0).dims.len() == parts[0].dims.len(),
        join_all(parts, 0).dims[1] == parts[0].dims[1],
    decreases parts.len(),
{
    if parts.len() > 1 {
        lemma_join_dims(parts.drop_last());
        assert(parts.drop_last()[0] == parts[0]);
    }
}

/// The talker is run on prompts of one length.
pub proof fn lemma_start_begins(
    talk: Talk,
    k: int,
    texts: Seq<Seq<char>>,
    embeds: Seq<Tensor>,
    ids: Vec<Vec<u32>>,
    max_new_tokens: usize,
    growing: bool,
    device: Device,
    b: BatchStart,
)
    requires
        b.wf(),
        ids@.len() == texts.len(),
        embeds.len() > 0,
        are_tokens_of(talk, k, texts, ids@),
        is_unplayed(talk, k),
        talk.count(k, Task::TtsEos) == 0,
        talk.count(k, Task::TtsPad) == 0,
        talk.count(k, Task::Head) == 0,
        BatchStart::starts(embeds, ids, max_new_tokens, growing, device, (b, talk.asked[k])),
    ensures
        start_come(talk, k, texts, b),
{
    let location = device_location(device);
    let input = b.phase->Caching_input;
    let mask = b.phase->Caching_mask;
    let (padded, masks) = choose|padded: Seq<Tensor>, masks: Seq<Vec<bool>>|
        {
            &&& #[trigger] are_padded(embeds, b.len, b.width, location, padded, masks)
            &&& joinable(grids(padded), 0)
            &&& grid(input) == join_all(grids(padded), 0)
            &&& grid(mask) == mask_grid(masks, b.len, location)
        };
    lemma_longest(embeds, 0);
    assert(is_padded(embeds[0], b.len, b.width, location, padded[0]));
    assert(grids(padded)[0] == grid(padded[0]));
    let n = positions(grid(embeds[0]));
    if n < b.len {
        let zeros = zero_positions(grid(embeds[0]), (b.len - n) as usize, b.width, location);
        assert(zeros.dims[1] == b.len - n);
    }
    assert(tensor_dims(padded[0])[1] == b.len);
    lemma_join_dims(grids(padded));
    assert(grid(input).dims == tensor_dims(input));
}

/// A reply leads on in the talker on the prompts.
pub proof fn lemma_start(talk: Talk, k: int, texts: Seq<Seq<char>>, b: BatchStart, turn: BatchStartTurn)
    requires
        0 <= k,
        start_come(talk, k, texts, b),
        b.steps(talk.replies[k], turn),
        turn matches BatchStartTurn::Ask(next, ask) ==> talk.asked[k + 1] == ask && next.wf(),
    ensures
        turn matches BatchStartTurn::Ask(next, _) ==> start_come(talk, k + 1, texts, next),
        turn matches BatchStartTurn::Ready(r) ==> ready_come(talk, k + 1, texts, r),
{
    lemma_tokens_stay(talk, k, texts, b.ids@);
    lemma_unplayed_stays(talk, k);
    if is_prompt_len(talk, k, b.len) {
        lemma_len_stays(talk, k, b.len);
    }
    match (b.phase, talk.replies[k]) {
        (BatchPhase::Layers, _) => {
            assert(0 <= k < k + 1 && is_prompt_len_at(talk, k, b.len));
        },
        (BatchPhase::Heads { logits, .. }, Reply::Tensor(l)) => {
            lemma_heads_stay(talk, k, logits@);
            let all = logits@.push(l);
            assert forall|i: int| 0 <= i < all.len() implies is_head_of(
                talk,
                k + 1,
                i,
                #[trigger] all[i],
            ) by {
                if i < logits@.len() {
                    assert(all[i] == logits@[i]);
                } else {
                    assert(0 <= k < k + 1 && is_head_at(talk, k, i, l));
                }
            }
        },
        (BatchPhase::Padding { logits, .. }, Reply::Tensor(pad)) => {
            lemma_heads_stay(talk, k, logits@);
            assert(talk.asked[k] is TtsPad);
            assert(is_no_text(talk, k + 1, pad));
            if let BatchStartTurn::Ask(next, ask) = turn {
                if let BatchPhase::Trailing { text, .. } = next.phase {
                    lemma_building_starts(talk, k + 1, b.ids@[0]@, text);
                }
            }
        },
        (
            BatchPhase::Trailing { last_hiddens, logits, pad, trailings, lens, text },
            _,
        ) => {
            lemma_no_text_stays(talk, k, pad);
            lemma_heads_stay(talk, k, logits@);
            lemma_texts_stay(talk, k, texts, trailings@, lens@);
            let ids = b.ids@[trailings@.len() as int]@;
            let t = choose|t: TrailingTurn| #[trigger]
                text.steps(talk.replies[k], t) && match t {
                    TrailingTurn::Ask(text, ask) => turn == BatchStartTurn::Ask(
                        BatchStart {
                            phase: BatchPhase::Trailing {
                                last_hiddens,
                                logits,
                                pad,
                                trailings,
                                lens,
                                text,
                            },
                            ..b
                        },
                        ask,
                    ),
                    TrailingTurn::Built { trailing, len, pad: _ } => b.trailed(
                        last_hiddens,
                        logits,
                        pad,
                        trailings@.push(trailing),
                        lens@.push(len),
                        turn,
                    ),
                };
            lemma_building(talk, k, ids, text, t);
            if let TrailingTurn::Built { trailing, len, .. } = t {
                lemma_trailed(talk, k, texts, b, trailing, len);
                if let BatchStartTurn::Ask(next, ask) = turn {
                    if let BatchPhase::Trailing { text, trailings: ts, .. } = next.phase {
                        lemma_building_starts(talk, k + 1, b.ids@[ts@.len() as int]@, text);
                    }
                }
            }
        },
        _ => {},
    }
}


/// How many of the first `i` sequences have not ended.
pub open spec fn going_on(done: Seq<bool>, i: int) -> nat
    decreases i,
{
    if i <= 0 {
        0
    } else {
        going_on(done, i - 1) + if done[i - 1] {
            0nat
        } else {
            1nat
        }
    }
}

/// The sequences that have not ended are numbered in order.
pub proof fn lemma_going_on(done: Seq<bool>)
    ensures
        actives(done).len() == going_on(done, done.len() as int),
        forall|i: int|
            0 <= i < done.len() && !done[i] ==> 0 <= #[trigger] going_on(done, i) < actives(done).len()
                && actives(done)[going_on(done, i) as int] == i,
    decreases done.len(),
{
    if done.len() > 0 {
        let init = done.drop_last();
        let n = init.len() as int;
        lemma_going_on(init);
        assert forall|i: int| 0 <= i <= n implies #[trigger] going_on(done, i) == going_on(init, i) by {
            lemma_going_on_prefix(done, init, i);
        }
        assert(going_on(done, n) == going_on(init, n));
        assert(going_on(done, n + 1) == going_on(done, n) + if done[n] {
            0nat
        } else {
            1nat
        });
        assert forall|i: int| 0 <= i < done.len() && !done[i] implies 0 <= #[trigger] going_on(
            done,
            i,
        ) < actives(done).len() && actives(done)[going_on(done, i) as int] == i by {
            if i < n {
                assert(!init[i]);
                assert(going_on(init, i) < actives(init).len());
            }
        }
    }
}

/// How many sequences go on is told by those before.
proof fn lemma_going_on_prefix(done: Seq<bool>, init: Seq<bool>, i: int)
    requires
        0 <= i <= init.len(),
        init == done.drop_last(),
        done.len() > 0,
    ensures
        going_on(done, i) == going_on(init, i),
    decreases i,
{
    if i > 0 {
        lemma_going_on_prefix(done, init, i - 1);
        assert(done[i - 1] == init[i - 1]);
    }
}

/// What is known of several sequences that are generated side by side: their texts, and
/// how far they have come.
pub open spec fn batch_come(talk: Talk, k: int, texts: Seq<Seq<char>>, base: usize, b: Batch) -> bool {
    &&& b.wf()
    &&& b.tokens@.len() == texts.len()
    &&& is_no_text(talk, k, b.pad)
    &&& are_texts_of(talk, k, texts, b.trailings@, b.lens@)
    &&& is_prompt_len(talk, k, base)
    &&& b.offset == base + b.index
    &&& forall|i: int| 0 <= i < tensor_cells(b.zero).len() ==> #[trigger] tensor_cells(b.zero)[i] == 0
}

/// What is known of several sequences stays known.
pub proof fn lemma_batch_stays(talk: Talk, k: int, texts: Seq<Seq<char>>, base: usize, b: Batch)
    requires
        batch_come(talk, k, texts, base, b),
    ensures
        batch_come(talk, k + 1, texts, base, b),
{
    lemma_no_text_stays(talk, k, b.pad);
    lemma_len_stays(talk, k, base);
    lemma_texts_stay(talk, k, texts, b.trailings@, b.lens@);
}

/// That `hidden` is what the talker gave last for sequence `i`: its own row, and of a
/// prompt the last position.
pub open spec fn is_row_hidden(talk: Talk, k: int, i: int, base: usize, hidden: Tensor) -> bool {
    let m = talk.latest(k, Task::Norm);
    &&& 0 <= m
    &&& talk.replies[m] matches Reply::Tensor(normalized)
    &&& grid(hidden) == if talk.count(k, Task::Round) == 0 {
        grid(normalized).narrow(0, i as usize, 1).narrow(1, (base - 1) as usize, 1)
    } else {
        grid(normalized).narrow(0, i as usize, 1)
    }
}

/// That these are what the talker gave last for each sequence that has not ended.
pub open spec fn hiddens_come(talk: Talk, k: int, base: usize, b: Batch) -> bool {
    forall|i: int|
        0 <= i < b.last_hiddens@.len() && !b.done@[i] ==> is_row_hidden(
            talk,
            k,
            i,
            base,
            #[trigger] b.last_hiddens@[i],
        )
}

/// What the talker gave last stays, where it is asked for something else.
pub proof fn lemma_hiddens_stay(talk: Talk, k: int, base: usize, b: Batch)
    requires
        0 <= k,
        hiddens_come(talk, k, base, b),
        !(talk.asked[k] is Norm),
        !(talk.asked[k] is Forward),
    ensures
        hiddens_come(talk, k + 1, base, b),
{
    assert forall|i: int| 0 <= i < b.last_hiddens@.len() && !b.done@[i] implies is_row_hidden(
        talk,
        k + 1,
        i,
        base,
        #[trigger] b.last_hiddens@[i],
    ) by {
        assert(is_row_hidden(talk, k, i, base, b.last_hiddens@[i]));
    }
}

/// That the token of a sequence was embedded at a place.
pub open spec fn is_embedded(talk: Talk, j: int, token: Tensor, embed: Tensor) -> bool {
    talk.asked[j] == Request::EmbedToken(token) && talk.replies[j] == Reply::Tensor(embed)
}

/// That the acoustic codes of a sequence were embedded at a place.
pub open spec fn is_summed(talk: Talk, j: int, codes: Tensor, sum: Tensor) -> bool {
    talk.asked[j] == Request::AcousticSum(codes) && talk.replies[j] == Reply::Tensor(sum)
}

/// That these tokens were embedded from place `j` on.
pub open spec fn are_embedded(talk: Talk, j: int, b: Batch, active: Seq<usize>, embeds: Seq<Tensor>) -> bool {
    forall|p: int|
        0 <= p < embeds.len() ==> is_embedded(
            talk,
            j + p,
            b.tokens@[active[p] as int],
            #[trigger] embeds[p],
        )
}

/// That these codes were embedded from place `j` on.
pub open spec fn are_summed(talk: Talk, j: int, acoustic: Seq<Tensor>, sums: Seq<Tensor>) -> bool {
    forall|p: int| 0 <= p < sums.len() ==> is_summed(talk, j + p, acoustic[p], #[trigger] sums[p])
}

/// That `t` holds these tensors one below the other.
pub open spec fn is_stack(rows: Seq<Tensor>, t: Tensor) -> bool {
    joinable(grids(rows), 0) && grid(t) == join_all(grids(rows), 0)
}

/// That codes are predicted at place `j` from these hidden states and embeddings.
pub open spec fn are_predicted(
    talk: Talk,
    j: int,
    base: usize,
    done: Seq<bool>,
    hiddens: Seq<Tensor>,
    embeds: Seq<Tensor>,
) -> bool {
    &&& hiddens.len() == going_on(done, done.len() as int)
    &&& embeds.len() == hiddens.len()
    &&& talk.asked[j] matches Request::BatchAcoustic { hiddens: below, embeds: side }
    &&& is_stack(hiddens, below)
    &&& is_stack(embeds, side)
    &&& forall|i: int|
        0 <= i < done.len() && !done[i] ==> {
            let p = #[trigger] going_on(done, i) as int;
            &&& is_row_hidden(talk, j, i, base, hiddens[p])
            &&& talk.replies[j - embeds.len() + p] == Reply::Tensor(embeds[p])
        }
}

/// That the codes of all sequences that have not ended are predicted at place `j` from
/// what the talker gave last for each of them and the embedding of its token, each on a
/// row of its own.
pub open spec fn is_predicted(talk: Talk, j: int, base: usize, done: Seq<bool>) -> bool {
    exists|hiddens: Seq<Tensor>, embeds: Seq<Tensor>| #[trigger]
        are_predicted(talk, j, base, done, hiddens, embeds)
}

/// That a row of what the talker is given at place `k` is that of a sequence: the sum of
/// the embedding of its token, that of its acoustic codes, and the position of its own
/// text that goes with this frame. It is number `p` of the `n` that have not ended.
pub open spec fn is_row(talk: Talk, k: int, i: int, p: int, n: int, text: Seq<char>, row: Tensor) -> bool {
    exists|token: Tensor, embed: Tensor, sum: Tensor, trailing: Tensor, pad: Tensor, spoken: Grid|
        {
            &&& #[trigger] is_embedded(talk, k - 2 * n - 1 + p, token, embed)
            &&& talk.replies[k - n - 1] matches Reply::Tensors(acoustic)
            &&& is_summed(talk, k - n + p, acoustic@[p], sum)
            &&& #[trigger] is_text_of(talk, k, i, text, trailing)
            &&& #[trigger] is_no_text(talk, k, pad)
            &&& #[trigger] is_position(trailing, talk.count(k, Task::Round) as int, pad, spoken)
            &&& #[trigger] is_sum_of(grid(embed), grid(sum), spoken, grid(row))
        }
}

/// That these are the rows of what the talker is given at place `k`: one for each
/// sequence, and zeros for those that have ended.
pub open spec fn are_rows(talk: Talk, k: int, texts: Seq<Seq<char>>, done: Seq<bool>, rows: Seq<Tensor>) -> bool {
    let n = going_on(done, done.len() as int) as int;
    &&& rows.len() == texts.len()
    &&& done.len() == texts.len()
    &&& forall|i: int|
        0 <= i < texts.len() && !done[i] ==> is_row(
            talk,
            k,
            i,
            going_on(done, i) as int,
            n,
            texts[i],
            #[trigger] rows[i],
        )
    &&& forall|i: int, c: int|
        0 <= i < texts.len() && done[i] && 0 <= c < tensor_cells(rows[i]).len()
            ==> #[trigger] tensor_cells(#[trigger] rows[i])[c] == 0
}

/// What the talker is given at place `k`: one row for each sequence.
pub open spec fn is_round(talk: Talk, k: int, texts: Seq<Seq<char>>, base: usize, done: Seq<bool>) -> bool {
    &&& talk.asked[k] matches Request::Forward { input, mask, offset }
    &&& mask is None
    &&& offset == base + talk.count(k, Task::Round)
    &&& exists|rows: Seq<Tensor>| #[trigger] are_rows(talk, k, texts, done, rows) && is_stack(
        rows,
        input,
    )
}


/// That the tokens of the sequences that have not ended were embedded for what the
/// talker is given at place `k`.
pub open spec fn are_tokens_at(talk: Talk, k: int, b: Batch) -> bool {
    let n = going_on(b.done@, b.done@.len() as int) as int;
    forall|i: int|
        0 <= i < b.done@.len() && !b.done@[i] ==> talk.asked[k - 2 * n - 1 + going_on(b.done@, i)]
            == Request::EmbedToken(#[trigger] b.tokens@[i])
}

/// That a round waits for the reply to the request at place `k`.
pub open spec fn round_come(talk: Talk, k: int, texts: Seq<Seq<char>>, base: usize, r: Round) -> bool {
    let n = r.active@.len() as int;
    &&& r.wf()
    &&& batch_come(talk, k, texts, base, r.batch)
    &&& match r.phase {
        RoundPhase::Embedding { embeds } => {
            let m = embeds@.len() as int;
            &&& talk.count(k, Task::Round) == r.batch.index
            &&& hiddens_come(talk, k, base, r.batch)
            &&& talk.asked[k] == Request::EmbedToken(r.batch.tokens@[r.active@[m] as int])
            &&& are_embedded(talk, k - m, r.batch, r.active@, embeds@)
        },
        RoundPhase::Predicting { embeds } => {
            &&& talk.count(k, Task::Round) == r.batch.index
            &&& is_predicted(talk, k, base, r.batch.done@)
            &&& talk.asked[k] is BatchAcoustic
            &&& are_embedded(talk, k - n, r.batch, r.active@, embeds@)
        },
        RoundPhase::Summing { embeds, acoustic, sums } => {
            let m = sums@.len() as int;
            &&& talk.count(k, Task::Round) == r.batch.index
            &&& talk.asked[k] == Request::AcousticSum(acoustic@[m])
            &&& talk.replies[k - m - 1] == Reply::Tensors(acoustic)
            &&& are_summed(talk, k - m, acoustic@, sums@)
            &&& are_embedded(talk, k - m - 1 - n, r.batch, r.active@, embeds@)
        },
        RoundPhase::Layers { .. } => {
            &&& are_tokens_at(talk, k, r.batch)
            &&& talk.count(k, Task::Round) == r.batch.index
            &&& is_round(talk, k, texts, base, r.batch.done@)
        },
        RoundPhase::Norm { .. } => {
            &&& talk.count(k, Task::Round) == r.batch.index + 1
            &&& 0 < k
            &&& talk.asked[k] matches Request::Norm(gave)
            &&& talk.asked[k - 1] is Forward
            &&& talk.replies[k - 1] == Reply::Tensor(gave)
        },
        RoundPhase::Head { hidden, .. } => {
            &&& talk.count(k, Task::Round) == r.batch.index + 1
            &&& talk.asked[k] == Request::CodecHead(hidden)
            &&& talk.told(k, Task::Norm, hidden)
        },
    }
}

/// That a round was played before place `k`: the talker gave this for all sequences, and
/// these logits.
pub open spec fn played_come(talk: Talk, k: int, texts: Seq<Seq<char>>, base: usize, p: Played) -> bool {
    &&& batch_come(talk, k, texts, base, p.batch)
    &&& indices(p.active@) == actives(p.batch.done@)
    &&& talk.count(k, Task::Round) == p.batch.index
    &&& p.batch.index > 0
    &&& talk.told(k, Task::Norm, p.hidden)
    &&& talk.told(k, Task::Head, p.logits)
}

/// The next token is embedded, or all are.
proof fn lemma_embedded(talk: Talk, k: int, texts: Seq<Seq<char>>, base: usize, r: Round, turn: RoundTurn)
    requires
        0 <= k,
        round_come(talk, k, texts, base, r),
        r.phase is Embedding,
        r.steps(talk.replies[k], turn),
        turn matches RoundTurn::Ask(next, ask) ==> talk.asked[k + 1] == ask && next.wf(),
    ensures
        turn matches RoundTurn::Ask(next, _) && round_come(talk, k + 1, texts, base, next),
{
    let embeds = r.phase->Embedding_embeds;
    let e = talk.replies[k]->Tensor_0;
    let all = embeds@.push(e);
    let m = embeds@.len() as int;
    let j = k - m;
    let next = turn->Ask_0;
    lemma_batch_stays(talk, k, texts, base, r.batch);
    lemma_hiddens_stay(talk, k, base, r.batch);
    assert forall|p: int| 0 <= p < all.len() implies is_embedded(
        talk,
        j + p,
        r.batch.tokens@[r.active@[p] as int],
        #[trigger] all[p],
    ) by {
        if p < m {
            assert(all[p] == embeds@[p]);
        }
    }
    assert(are_embedded(talk, j, r.batch, r.active@, all));
    if all.len() == r.active@.len() {
        let done = r.batch.done@;
        let hiddens = crate::round::picked(r.batch.last_hiddens@, r.active@);
        lemma_going_on(done);
        lemma_actives(done);
        assert(indices(r.active@).len() == r.active@.len());
        assert forall|i: int| 0 <= i < done.len() && !done[i] implies {
            let p = #[trigger] going_on(done, i) as int;
            &&& is_row_hidden(talk, k + 1, i, base, hiddens[p])
            &&& talk.replies[k + 1 - all.len() + p] == Reply::Tensor(all[p])
        } by {
            let p = going_on(done, i) as int;
            assert(indices(r.active@)[p] == r.active@[p]);
            assert(hiddens[p] == r.batch.last_hiddens@[i]);
            assert(is_row_hidden(talk, k + 1, i, base, r.batch.last_hiddens@[i]));
            assert(is_embedded(talk, j + p, r.batch.tokens@[r.active@[p] as int], all[p]));
        }
        assert(are_predicted(talk, k + 1, base, done, hiddens, all));
        assert(next.phase is Predicting);
        assert(k + 1 - r.active@.len() == j);
    } else {
        assert(k + 1 - all.len() == j);
    }
}


/// The rows of what the talker is given are those of the sequences.
proof fn lemma_rows(
    talk: Talk,
    k: int,
    texts: Seq<Seq<char>>,
    base: usize,
    r: Round,
    embeds: Seq<Tensor>,
    acoustic: Vec<Tensor>,
    sums: Seq<Tensor>,
    rows: Seq<Tensor>,
)
    requires
        r.batch.wf(),
        indices(r.active@) == actives(r.batch.done@),
        batch_come(talk, k, texts, base, r.batch),
        talk.count(k, Task::Round) == r.batch.index,
        embeds.len() == r.active@.len(),
        sums.len() == r.active@.len(),
        talk.replies[k - r.active@.len() - 1] == Reply::Tensors(acoustic),
        are_summed(talk, k - r.active@.len(), acoustic@, sums),
        are_embedded(talk, k - 2 * r.active@.len() - 1, r.batch, r.active@, embeds),
        r.batch.are_inputs(r.active@, embeds, sums, rows),
    ensures
        are_rows(talk, k, texts, r.batch.done@, rows),
        are_tokens_at(talk, k, r.batch),
{
    let done = r.batch.done@;
    let b = r.batch;
    let n = r.active@.len() as int;
    lemma_going_on(done);
    lemma_actives(done);
    assert(indices(r.active@).len() == r.active@.len());
    assert forall|i: int| 0 <= i < texts.len() && !done[i] implies is_row(
        talk,
        k,
        i,
        going_on(done, i) as int,
        n,
        texts[i],
        #[trigger] rows[i],
    ) by {
        let p = going_on(done, i) as int;
        assert(indices(r.active@)[p] == r.active@[p]);
        assert(r.active@[p] == i);
        let text = crate::generation::text_for(
            grid(b.trailings@[i]),
            b.lens@[i] as int,
            grid(b.pad),
            b.index,
        );
        assert(is_embedded(talk, k - 2 * n - 1 + p, b.tokens@[i], embeds[p]));
        assert(is_summed(talk, k - n + p, acoustic@[p], sums[p]));
        assert(is_text_of(talk, k, i, texts[i], b.trailings@[i]));
        assert(is_position(b.trailings@[i], talk.count(k, Task::Round) as int, b.pad, text));
        assert(crate::generation::is_fused(grid(embeds[p]), grid(sums[p]), text, grid(rows[i])));
        assert(is_sum_of(grid(embeds[p]), grid(sums[p]), text, grid(rows[i])));
    }
    assert forall|i: int| 0 <= i < done.len() && !done[i] implies talk.asked[k - 2 * n - 1 + going_on(
        done,
        i,
    )] == Request::EmbedToken(#[trigger] b.tokens@[i]) by {
        let p = going_on(done, i) as int;
        assert(indices(r.active@)[p] == r.active@[p]);
        assert(is_embedded(talk, k - 2 * n - 1 + p, b.tokens@[i], embeds[p]));
    }
    assert forall|i: int, c: int|
        0 <= i < texts.len() && done[i] && 0 <= c < tensor_cells(rows[i]).len() implies
        #[trigger] tensor_cells(#[trigger] rows[i])[c] == 0 by {
        assert(rows[i] == b.zero);
    }
}

/// The next codes are embedded, or all are.
proof fn lemma_summed(
    talk: Talk,
    k: int,
    texts: Seq<Seq<char>>,
    base: usize,
    r: Round,
    embeds: Vec<Tensor>,
    acoustic: Vec<Tensor>,
    sums: Seq<Tensor>,
    turn: RoundTurn,
)
    requires
        0 <= k,
        r.wf(),
        batch_come(talk, k + 1, texts, base, r.batch),
        talk.count(k + 1, Task::Round) == r.batch.index,
        embeds@.len() == r.active@.len(),
        sums.len() <= r.active@.len(),
        talk.replies[k + 1 - sums.len() - 1] == Reply::Tensors(acoustic),
        are_summed(talk, k + 1 - sums.len(), acoustic@, sums),
        are_embedded(
            talk,
            k + 1 - sums.len() - 1 - r.active@.len(),
            r.batch,
            r.active@,
            embeds@,
        ),
        r.summed(embeds, acoustic, sums, turn),
        turn matches RoundTurn::Ask(next, ask) ==> talk.asked[k + 1] == ask && next.wf(),
    ensures
        turn matches RoundTurn::Ask(next, _) && round_come(talk, k + 1, texts, base, next),
{
    let next = turn->Ask_0;
    if sums.len() == r.active@.len() {
        let input = turn->Ask_1->Forward_input;
        let rows = choose|rows: Seq<Tensor>| #[trigger]
            r.batch.are_inputs(r.active@, embeds@, sums, rows) && crate::round::is_below(rows, input);
        let n = r.active@.len();
        assert(k + 1 - n - 1 - n == k + 1 - 2 * n - 1);
        lemma_rows(talk, k + 1, texts, base, r, embeds@, acoustic, sums, rows);
        assert(is_stack(rows, input));
        assert(is_round(talk, k + 1, texts, base, r.batch.done@));
    }
}

/// A reply leads on in a round.
pub proof fn lemma_round(talk: Talk, k: int, texts: Seq<Seq<char>>, base: usize, r: Round, turn: RoundTurn)
    requires
        0 <= k,
        round_come(talk, k, texts, base, r),
        r.steps(talk.replies[k], turn),
        turn matches RoundTurn::Ask(next, ask) ==> talk.asked[k + 1] == ask && next.wf(),
        turn matches RoundTurn::Played(p) ==> p.batch.wf(),
    ensures
        turn matches RoundTurn::Ask(next, _) ==> round_come(talk, k + 1, texts, base, next),
        turn matches RoundTurn::Played(p) ==> played_come(talk, k + 1, texts, base, p),
        !(talk.asked[k] is Sample),
{
    lemma_batch_stays(talk, k, texts, base, r.batch);
    match (r.phase, talk.replies[k]) {
        (RoundPhase::Embedding { .. }, _) => {
            lemma_embedded(talk, k, texts, base, r, turn);
        },
        (RoundPhase::Predicting { embeds }, Reply::Tensors(acoustic)) => {
            let none = Seq::<Tensor>::empty();
            assert(are_summed(talk, k + 1 - none.len(), acoustic@, none));
            assert(k + 1 - none.len() - 1 - r.active@.len() == k - r.active@.len());
            lemma_summed(talk, k, texts, base, r, embeds, acoustic, none, turn);
        },
        (RoundPhase::Summing { embeds, acoustic, sums }, Reply::Tensor(s)) => {
            let all = sums@.push(s);
            let m = sums@.len() as int;
            let j = k - m;
            assert(k + 1 - all.len() == j);
            assert forall|p: int| 0 <= p < all.len() implies is_summed(
                talk,
                j + p,
                acoustic@[p],
                #[trigger] all[p],
            ) by {
                if p < m {
                    assert(all[p] == sums@[p]);
                }
            }
            assert(are_summed(talk, j, acoustic@, all));
            lemma_summed(talk, k, texts, base, r, embeds, acoustic, all, turn);
        },
        _ => {},
    }
}

} // verus!
