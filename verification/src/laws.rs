//! What holds of the library as a whole.
use crate::audio::share;
use crate::batch::{all_values, kept_samples, lemma_in_order, lemma_with_frames, with_frames};
use crate::batch_start::{are_padded, BatchStart, BatchStartTurn};
use crate::batch_stream::{is_next_lane, BatchStreaming, StreamTurn};
use crate::batch_synth::BatchSynthesis;
use crate::chunks::{are_chunks, is_cut};
use crate::code_loop::{CodeLoop, CodeTurn};
use crate::codes::{
    are_frames, codes_grid, full_frames, is_frame, lemma_frame_cells, transferred, values, warmup,
    CODEBOOKS,
};
use crate::device::{
    ascii, is_best_device, is_choice, is_first_card, kind_of, lower, opened, serves, wanted,
    DeviceError, Metal,
};
use crate::generation::{held_back, is_frame_of, marked, text_for};
use crate::generator::{GenTurn, Generator, Phase};
use crate::grid::{
    cells_of, float_greater, float_order, is_nan, join_all, joinable, Grid, Location, NEG_INFINITY,
    ONE,
};
use crate::options::{
    GenerationConfig, SynthesisOptions, CODEC_VOCAB_SIZE, ICL_MIN_FRAMES, SAMPLES_PER_FRAME,
};
use crate::padding::{
    is_padded, longest_of, mask_cell, mask_grid, mask_plane, mask_planes, positions, tokens_at_end,
    zero_positions,
};
use crate::request::{Reply, Request};
use crate::round::{actives, indices, lemma_actives, Batch};
use crate::session::{ChunkTurn, StreamingSession};
use crate::synth::decoded_frames;
use crate::tensor::{device_location, grid, grids, tensor_cells, tensor_dims};
use crate::text::index_value;
use crate::weights::under_prefix;
use candle_core::Tensor;
use vstd::prelude::*;

verus! {

/// In the tensor of frames, codebook `q` of frame `f` stands at row `q` and
/// column `f`.
pub proof fn law_codes_layout(codes: Seq<Seq<u32>>, location: Location, f: int, q: int)
    requires
        full_frames(codes),
        0 <= f < codes.len(),
        0 <= q < CODEBOOKS,
    ensures
        codes_grid(codes, location).cells[q * codes.len() + f] == codes[f][q],
{
    let n = codes.len() as int;
    assert(0 <= q * n + f < CODEBOOKS * n) by (nonlinear_arith)
        requires
            0 <= f < n,
            0 <= q < CODEBOOKS,
    ;
    vstd::arithmetic::div_mod::lemma_fundamental_div_mod_converse(q * n + f, n, q, f);
    assert(codes[f].len() == CODEBOOKS);
}

/// Different frames give different tensors: the frames can be read back.
pub proof fn law_codes_kept(a: Seq<Seq<u32>>, b: Seq<Seq<u32>>, location: Location)
    requires
        full_frames(a),
        full_frames(b),
        a.len() == b.len(),
        codes_grid(a, location) == codes_grid(b, location),
    ensures
        a == b,
{
    assert forall|f: int| 0 <= f < a.len() implies a[f] == b[f] by {
        assert(a[f].len() == CODEBOOKS);
        assert(b[f].len() == CODEBOOKS);
        assert forall|q: int| 0 <= q < CODEBOOKS implies a[f][q] == b[f][q] by {
            law_codes_layout(a, location, f, q);
            law_codes_layout(b, location, f, q);
        }
        assert(a[f] =~= b[f]);
    }
    assert(a =~= b);
}

/// Marking a token leaves every other place of the mask as it was.
pub proof fn law_mark_one(mask: Grid, token: u32, vocab: usize, i: int)
    requires
        0 <= i < mask.cells.len(),
        token < vocab ==> token < mask.cells.len(),
        i != token,
    ensures
        marked(mask, token, vocab).cells[i] == mask.cells[i],
{
}

/// Marking a token twice is marking it once.
pub proof fn law_mark_twice(mask: Grid, token: u32, vocab: usize)
    requires
        token < vocab ==> token < mask.cells.len(),
    ensures
        marked(marked(mask, token, vocab), token, vocab) == marked(mask, token, vocab),
{
    let once = marked(mask, token, vocab);
    assert(marked(once, token, vocab).cells =~= once.cells);
}

/// The order in which tokens are marked does not matter.
pub proof fn law_mark_order(mask: Grid, a: u32, b: u32, vocab: usize)
    requires
        a < vocab ==> a < mask.cells.len(),
        b < vocab ==> b < mask.cells.len(),
    ensures
        marked(marked(mask, a, vocab), b, vocab) == marked(marked(mask, b, vocab), a, vocab),
{
    let ab = marked(marked(mask, a, vocab), b, vocab);
    let ba = marked(marked(mask, b, vocab), a, vocab);
    assert(ab.cells =~= ba.cells);
}

/// While it is too early for end-of-sequence, its logits are minus infinity in
/// every row and all other logits are as they were.
pub proof fn law_no_early_end(
    logits: Grid,
    config: GenerationConfig,
    token_count: int,
    row: int,
    col: int,
)
    requires
        logits.dims.len() == 2,
        logits.cells.len() == logits.dims[0] * logits.dims[1],
        0 <= row < logits.dims[0],
        0 <= col < logits.dims[1],
        token_count < config.min_new_tokens,
        config.eos_token_id is Some,
    ensures
        held_back(logits, config, token_count).cells[row * logits.dims[1] + col] == if col
            == config.eos_token_id->0 {
            NEG_INFINITY as int
        } else {
            logits.cells[row * logits.dims[1] + col]
        },
{
    let n = logits.dims[1] as int;
    let rows = logits.dims[0] as int;
    let k = row * n + col;
    assert(0 <= k < rows * n) by (nonlinear_arith)
        requires
            0 <= row < rows,
            0 <= col < n,
            k == row * n + col,
    ;
    vstd::arithmetic::div_mod::lemma_fundamental_div_mod_converse(k, n, row, col);
}

/// Minus infinity exceeds no number, so that a suppressed code is never the only
/// greatest one.
pub proof fn law_suppressed_is_least(cell: int)
    requires
        0 <= cell <= u32::MAX,
        !is_nan(cell),
    ensures
        float_order(NEG_INFINITY as int) <= float_order(cell),
        !float_greater(NEG_INFINITY as int, cell),
{
}

/// From the moment when there are enough tokens, no logits are held back.
pub proof fn law_end_is_allowed(logits: Grid, config: GenerationConfig, token_count: int)
    requires
        token_count >= config.min_new_tokens,
    ensures
        held_back(logits, config, token_count) == logits,
{
}

/// A frame is its semantic code followed by its acoustic codes; with fifteen of
/// them it is a full frame.
pub proof fn law_frame(semantic: int, acoustic: Grid, frame: Grid, i: int)
    requires
        is_frame_of(semantic, acoustic, frame),
        0 <= i < acoustic.cells.len(),
    ensures
        frame.cells[0] == semantic,
        frame.cells[i + 1] == acoustic.cells[i],
        acoustic.dims == seq![15usize] && acoustic.cells.len() == 15 ==> is_frame(frame),
{
    if acoustic.dims == seq![15usize] {
        assert(frame.dims =~= seq![CODEBOOKS]);
    }
}

/// After the trailing text no text is fused with the frames any more.
pub proof fn law_text_used_up(trailing: Grid, len: int, pad: Grid, frame: usize)
    requires
        frame >= len,
    ensures
        text_for(trailing, len, pad, frame) == pad,
{
}

/// No generated frame holds end-of-sequence as its semantic code, and there are
/// not more frames than there may be.
pub proof fn law_codes_without_end(l: CodeLoop, codes: Seq<Vec<u32>>, f: int)
    requires
        l.wf(),
        are_frames(l.frames@),
        transferred(l.frames@, codes),
        0 <= f < codes.len(),
    ensures
        codes.len() <= l.generator.config.max_new_tokens,
        codes[f]@.len() == CODEBOOKS,
        l.generator.config.eos_token_id != Some(codes[f]@[0]),
        cells_of(codes[f]@) == tensor_cells(l.frames@[f]),
{
    lemma_frame_cells(l.frames@, f);
    assert(is_frame(grid(l.frames@[f])));
    assert(cells_of(codes[f]@).len() == codes[f]@.len());
    assert(cells_of(codes[f]@)[0] == codes[f]@[0]);
}

impl Generator {
    /// The position at which generation started.
    pub open spec fn base(self) -> int {
        match self.phase {
            Phase::Summing { .. } | Phase::Stepping => self.offset - self.frames + 1,
            _ => self.offset - self.frames,
        }
    }

    /// How many more tokens were sampled than frames were made.
    pub open spec fn lead(self) -> int {
        match self.phase {
            Phase::Ready { .. } | Phase::Embedding { .. } | Phase::Predicting { .. } => {
                self.token_count - self.frames - 1
            },
            _ => self.token_count - self.frames,
        }
    }
}

/// Each frame takes up one position of the talker and one token: whatever the
/// replies are, positions and tokens stay in step with the frames.
pub proof fn law_in_step(g: Generator, reply: Reply, next: Generator, turn: GenTurn)
    requires
        g.steps(reply, next, turn),
        g.offset < usize::MAX,
        g.frames < usize::MAX,
        g.token_count < usize::MAX,
    ensures
        next.base() == g.base(),
        next.lead() == g.lead(),
{
}

/// Only a frame that is made changes what is kept: configuration, text and mask
/// of the tokens before stay.
pub proof fn law_kept(g: Generator, reply: Reply, next: Generator, turn: GenTurn)
    requires
        g.steps(reply, next, turn),
    ensures
        next.config == g.config,
        next.trailing == g.trailing,
        next.trailing_len == g.trailing_len,
        next.pad == g.pad,
        next.penalty_mask == g.penalty_mask || g.phase is Sampling,
{
}

/// A token that was sampled is marked, and the marks of earlier tokens stay.
pub proof fn law_marks_stay(g: Generator, reply: Reply, next: Generator, turn: GenTurn, i: int)
    requires
        g.wf(),
        g.steps(reply, next, turn),
        0 <= i < CODEC_VOCAB_SIZE,
        tensor_cells(g.penalty_mask)[i] == ONE || (next.phase matches Phase::Ready { id, .. } && id
            == i && g.phase is Sampling),
    ensures
        tensor_cells(next.penalty_mask)[i] == ONE,
{
}

/// Streaming makes of a token and its acoustic codes the same frame as the loop
/// that generates all frames.
pub proof fn law_same_frames(
    l: CodeLoop,
    s: StreamingSession,
    g: Generator,
    id: u32,
    token: Tensor,
    acoustic: Tensor,
    ask: Request,
    turn: CodeTurn,
    next: StreamingSession,
)
    requires
        l.follows(g, (GenTurn::Frame { id, token, acoustic, ask }), turn),
        s.buffers(g, id, acoustic, next),
    ensures
        turn matches CodeTurn::Ask(after, _) && tensor_cells(after.frames@.last()) == cells_of(
            next.frame_buffer@.last()@,
        ),
{
}

/// A chunk that is decoded has a frame, and not more of them than a chunk has.
/// One with fewer comes only when generation is over.
pub proof fn law_chunk(s: StreamingSession, next: StreamingSession, t: Tensor)
    requires
        s.wf(),
        s.continues(next, ChunkTurn::Ask(Request::Decode(t))),
    ensures
        0 < s.frame_buffer@.len() <= s.chunk_frames,
        s.frame_buffer@.len() < s.chunk_frames ==> s.generator is None || s.frames_generated
            == s.config.max_new_tokens,
        next.sent@ == s.sent@ + values(s.frame_buffer@),
        next.frame_buffer@.len() == 0,
{
}

/// What a session decodes are its frames, each once and in order: when nothing is
/// buffered, all frames were handed to the decoder.
pub proof fn law_nothing_lost(s: StreamingSession)
    requires
        s.wf(),
        s.frame_buffer@.len() == 0,
    ensures
        s.sent@ == s.made@,
        s.sent@.len() == s.frames_generated,
{
    assert(values(s.frame_buffer@) =~= Seq::<Seq<u32>>::empty());
    assert(s.sent@ + values(s.frame_buffer@) =~= s.sent@);
}

/// A session that is complete yields no more chunks.
pub proof fn law_complete(s: StreamingSession, next: StreamingSession, turn: ChunkTurn)
    requires
        s.wf(),
        s.complete(),
        s.done ==> s.flushes(next, turn),
        !s.done ==> s.continues(next, turn),
    ensures
        turn == ChunkTurn::End,
        next.frames_generated == s.frames_generated,
{
}

/// Cloning in context leaves out generated frames only at the front, and keeps
/// one at least.
pub proof fn law_warmup(ref_text_len: int, frames: int)
    requires
        ref_text_len >= 0,
        frames > 0,
    ensures
        0 <= warmup(ref_text_len, frames) < frames,
        warmup(ref_text_len, frames) > 0 ==> warmup(ref_text_len, frames) == ref_text_len - 3,
{
}

/// What is decoded for a voice that is cloned in context starts with the
/// reference frames and ends with the generated ones.
pub proof fn law_reference_first(
    ref_frames: Seq<Seq<u32>>,
    codes: Seq<Seq<u32>>,
    ref_text_len: nat,
    i: int,
)
    requires
        codes.len() > 0,
        0 <= i < ref_frames.len(),
    ensures
        decoded_frames(ref_frames, codes, ref_text_len)[i] == ref_frames[i],
        decoded_frames(ref_frames, codes, ref_text_len).last() == codes.last(),
        decoded_frames(ref_frames, codes, ref_text_len).len() <= ref_frames.len() + codes.len(),
{
    let rest = codes.skip(warmup(ref_text_len as int, codes.len() as int));
    assert(rest.last() == codes.last());
}

/// The cut for the reference is its share of the samples: none without reference
/// frames, all where there are no other frames.
pub proof fn law_share(ref_len: int, samples: int, total: int)
    requires
        0 <= ref_len <= total,
        0 < total,
        0 <= samples,
    ensures
        0 <= share(ref_len, samples, total) <= samples,
        ref_len == 0 ==> share(ref_len, samples, total) == 0,
        ref_len == total ==> share(ref_len, samples, total) == samples,
{
    assert(0 <= ref_len * samples <= total * samples) by (nonlinear_arith)
        requires
            0 <= ref_len <= total,
            0 <= samples,
    ;
    assert(total * samples / total == samples) by (nonlinear_arith)
        requires
            total > 0,
    ;
    vstd::arithmetic::div_mod::lemma_div_is_ordered(ref_len * samples, total * samples, total);
    vstd::arithmetic::div_mod::lemma_div_pos_is_pos(ref_len * samples, total);
    if ref_len == 0 {
        assert(ref_len * samples == 0) by (nonlinear_arith)
            requires
                ref_len == 0,
        ;
        assert(0int / total == 0) by (nonlinear_arith)
            requires
                total > 0,
        ;
    }
}

/// Cloning in context generates no more frames than the options allow, allows a
/// fixed number whatever the text, and penalises repetition no less than the
/// options do.
pub proof fn law_clone_config(o: SynthesisOptions, text_tokens: nat)
    ensures
        o.clone_config(true, text_tokens).max_new_tokens <= o.max_length,
        o.max_length <= ICL_MIN_FRAMES ==> o.clone_config(true, text_tokens).max_new_tokens
            == o.max_length,
        o.max_length > ICL_MIN_FRAMES ==> o.clone_config(true, text_tokens).max_new_tokens
            >= ICL_MIN_FRAMES,
        !o.repetition_penalty.is_nan() ==> o.clone_config(
            true,
            text_tokens,
        ).repetition_penalty.order() >= o.repetition_penalty.order(),
        o.clone_config(false, text_tokens) == o.gen_config(),
{
}

/// A sequence attends to the positions that hold its tokens and are not later,
/// and to no others: neither to the padding before them nor to what comes after.
pub proof fn law_attention(masks: Seq<Vec<bool>>, len: usize, location: Location, b: int, i: int, j: int)
    requires
        0 <= b < masks.len(),
        0 <= i < len,
        0 <= j < len,
    ensures
        ({
            let k = b * (len * len) + i * len + j;
            mask_grid(masks, len, location).cells[k] == mask_cell(masks[b]@, i, j)
        }),
        mask_cell(masks[b]@, i, j) == NEG_INFINITY <==> j > i || !masks[b]@[j],
{
    lemma_mask_cell(masks, len as nat, b, i, j);
}

/// A cell of the planes of several sequences.
proof fn lemma_mask_cell(masks: Seq<Vec<bool>>, len: nat, b: int, i: int, j: int)
    requires
        0 <= b < masks.len(),
        0 <= i < len,
        0 <= j < len,
    ensures
        mask_planes(masks, len).len() == masks.len() * (len * len),
        mask_planes(masks, len)[b * (len * len) + i * len + j] == mask_cell(masks[b]@, i, j),
    decreases masks.len(),
{
    let init = masks.drop_last();
    let n = init.len() as int;
    let size = (len * len) as int;
    let at = i * len + j;
    assert(0 <= at < size) by (nonlinear_arith)
        requires
            0 <= i < len,
            0 <= j < len,
            size == len * len,
            at == i * len + j,
    ;
    assert((n + 1) * size == n * size + size) by (nonlinear_arith);
    if n > 0 {
        lemma_mask_cell(init, len, if b < n {
            b
        } else {
            0
        }, i, j);
    } else {
        assert(0 * size == 0) by (nonlinear_arith);
    }
    assert(mask_planes(init, len).len() == n * size);
    if b == n {
        vstd::arithmetic::div_mod::lemma_fundamental_div_mod_converse(at, len as int, i, j);
        assert(mask_plane(masks.last()@, len)[at] == mask_cell(masks[b]@, i, j));
    } else {
        assert(0 <= b * size + at < n * size) by (nonlinear_arith)
            requires
                0 <= b < n,
                0 <= at < size,
        ;
        assert(init[b] == masks[b]);
    }
}

/// That a row for the talker is this prompt at the right, with zeros before it where it
/// has fewer than `len` positions.
pub open spec fn is_filled_up(prompt: Tensor, len: int, row: Tensor) -> bool {
    let n = tensor_dims(prompt)[1] as int;
    if n < len {
        exists|zeros: Grid|
            {
                &&& #[trigger] zeros.fits(grid(prompt), 1)
                &&& zeros.dims.len() == 3
                &&& zeros.dims[0] == 1
                &&& zeros.dims[1] == len - n
                &&& forall|c: int| 0 <= c < zeros.cells.len() ==> #[trigger] zeros.cells[c] == 0
                &&& grid(row) == zeros.join(grid(prompt), 1)
            }
    } else {
        n == len && row == prompt
    }
}

/// The talker is run on all prompts of a batch at once. The caches have room for the
/// prompts, the frames and 16 positions more. Each prompt stands at the right of its own
/// row, as long as the longest one, and attends to no position but its own that is not
/// later.
pub proof fn law_batch_prompts(
    embeds: Seq<Tensor>,
    ids: Vec<Vec<u32>>,
    max_new_tokens: usize,
    growing: bool,
    device: candle_core::Device,
    b: BatchStart,
    ask: Request,
    reply: Reply,
    next: BatchStart,
    forward: Request,
)
    requires
        BatchStart::starts(embeds, ids, max_new_tokens, growing, device, (b, ask)),
        b.steps(reply, BatchStartTurn::Ask(next, forward)),
        embeds.len() > 0,
        forall|i: int| 0 <= i < embeds.len() ==> tensor_dims(#[trigger] embeds[i]).len() == 3,
    ensures
        growing ==> ask is NewGrowingCaches,
        forall|i: int| 0 <= i < embeds.len() ==> tensor_dims(#[trigger] embeds[i])[1] <= b.len,
        exists|i: int| 0 <= i < embeds.len() && tensor_dims(#[trigger] embeds[i])[1] == b.len,
        !growing && max_new_tokens + b.len + 16 <= usize::MAX ==> ask == Request::NewBatchCaches(
            ids@.len() as usize,
            (max_new_tokens + b.len + 16) as usize,
        ),
        forward matches Request::Forward { input, mask, offset } && offset == 0 && (mask matches Some(
            m,
        ) && is_run_on(embeds, b.len as int, input, m)),
{
    let input = b.phase->Caching_input;
    let mask = b.phase->Caching_mask;
    let location = device_location(device);
    let (padded, masks) = choose|padded: Seq<Tensor>, masks: Seq<Vec<bool>>|
        {
            &&& #[trigger] are_padded(embeds, b.len, b.width, location, padded, masks)
            &&& joinable(grids(padded), 0)
            &&& grid(input) == join_all(grids(padded), 0)
            &&& grid(mask) == mask_grid(masks, b.len, location)
        };
    assert(tensor_cells(mask) == grid(mask).cells);
    lemma_longest_of(embeds);
    assert forall|i: int| 0 <= i < embeds.len() implies is_filled_up(
        embeds[i],
        b.len as int,
        #[trigger] padded[i],
    ) by {
        let n = positions(grid(embeds[i]));
        assert(tensor_dims(embeds[i]) == grid(embeds[i]).dims);
        assert(is_padded(embeds[i], b.len, b.width, location, padded[i]));
        if n < b.len {
            let zeros = zero_positions(grid(embeds[i]), (b.len - n) as usize, b.width, location);
            assert(zeros.fits(grid(embeds[i]), 1));
        }
    }
    assert forall|i: int, r: int, c: int|
        0 <= i < embeds.len() && 0 <= r < b.len && 0 <= c < b.len implies (#[trigger] attends(
        mask,
        b.len as int,
        i,
        r,
        c,
    ) <==> b.len - tensor_dims(embeds[i])[1] <= c <= r) by {
        lemma_mask_cell(masks, b.len as nat, i, r, c);
        assert(tensor_dims(embeds[i]) == grid(embeds[i]).dims);
        assert(masks[i]@ == tokens_at_end(positions(grid(embeds[i])), b.len as nat));
    }
    assert(are_filled_up(embeds, b.len as int, padded));
    assert(is_run_on(embeds, b.len as int, input, mask));
}

/// Whether position `r` of sequence `i` attends to position `c`.
pub open spec fn attends(mask: Tensor, len: int, i: int, r: int, c: int) -> bool {
    tensor_cells(mask)[i * (len * len) + r * len + c] != NEG_INFINITY
}

/// That these rows are the prompts, each filled up.
pub open spec fn are_filled_up(embeds: Seq<Tensor>, len: int, rows: Seq<Tensor>) -> bool {
    &&& rows.len() == embeds.len()
    &&& forall|i: int| 0 <= i < embeds.len() ==> is_filled_up(embeds[i], len, #[trigger] rows[i])
}

/// That the talker is run on these prompts, one on each row, and that each attends only to
/// its own positions that are not later.
pub open spec fn is_run_on(embeds: Seq<Tensor>, len: int, input: Tensor, mask: Tensor) -> bool {
    &&& exists|rows: Seq<Tensor>| #[trigger]
        are_filled_up(embeds, len, rows) && grid(input) == join_all(grids(rows), 0)
    &&& forall|i: int, r: int, c: int|
        0 <= i < embeds.len() && 0 <= r < len && 0 <= c < len ==> (#[trigger] attends(
            mask,
            len,
            i,
            r,
            c,
        ) <==> len - tensor_dims(embeds[i])[1] <= c <= r)
}

/// The longest prompt is one of them.
proof fn lemma_longest_of(embeds: Seq<Tensor>)
    requires
        forall|i: int| 0 <= i < embeds.len() ==> tensor_dims(#[trigger] embeds[i]).len() == 3,
    ensures
        forall|i: int|
            0 <= i < embeds.len() ==> tensor_dims(#[trigger] embeds[i])[1] <= longest_of(embeds),
        embeds.len() > 0 ==> exists|i: int|
            0 <= i < embeds.len() && tensor_dims(#[trigger] embeds[i])[1] == longest_of(embeds),
    decreases embeds.len(),
{
    if embeds.len() > 0 {
        let init = embeds.drop_last();
        let n = embeds.len() - 1;
        assert forall|i: int| 0 <= i < init.len() implies tensor_dims(#[trigger] init[i]).len() == 3 by {
            assert(init[i] == embeds[i]);
        }
        lemma_longest_of(init);
        assert(tensor_dims(embeds[n]) == grid(embeds[n]).dims);
        assert forall|i: int| 0 <= i < embeds.len() implies tensor_dims(#[trigger] embeds[i])[1]
            <= longest_of(embeds) by {
            if i < n {
                assert(init[i] == embeds[i]);
            }
        }
        if tensor_dims(embeds[n])[1] != longest_of(embeds) {
            let i = choose|i: int|
                0 <= i < init.len() && tensor_dims(#[trigger] init[i])[1] == longest_of(init);
            assert(init[i] == embeds[i]);
        }
    }
}

/// Padding stands at the left: the last positions hold the tokens.
pub proof fn law_padding_left(n: nat, len: nat, j: int)
    requires
        n <= len,
        0 <= j < len,
    ensures
        tokens_at_end(n, len)[j] <==> j >= len - n,
{
}

/// What is kept of a waveform is not longer than the frames of its sequence.
pub proof fn law_kept_samples(frames: int, samples: int)
    requires
        0 <= frames,
        0 <= samples,
    ensures
        kept_samples(frames, samples) <= frames * SAMPLES_PER_FRAME,
        kept_samples(frames, samples) <= samples,
        samples >= frames * SAMPLES_PER_FRAME ==> kept_samples(frames, samples) == frames
            * SAMPLES_PER_FRAME,
{
}

/// Each sequence of a batch that has not ended gets its own frame of a round, and
/// the others get none.
pub proof fn law_own_frame(
    codes: Seq<Seq<Seq<u32>>>,
    done: Seq<bool>,
    active: Seq<usize>,
    rows: Seq<Seq<u32>>,
    i: int,
)
    requires
        done.len() == codes.len(),
        indices(active) == actives(done),
        rows.len() == active.len(),
        0 <= i < codes.len(),
    ensures
        done[i] ==> with_frames(codes, active, rows)[i] == codes[i],
        !done[i] ==> exists|k: int|
            0 <= k < rows.len() && active[k] == i && with_frames(codes, active, rows)[i]
                == codes[i].push(#[trigger] rows[k]),
{
    lemma_in_order(done, active);
    lemma_with_frames(codes, active, rows);
    lemma_actives(done);
    assert(indices(active).len() == active.len());
    if done[i] {
        assert forall|k: int| 0 <= k < active.len() implies active[k] != i by {
            assert(indices(active)[k] == active[k]);
        }
    } else {
        assert(actives(done).contains(i));
        let k = choose|k: int| 0 <= k < actives(done).len() && actives(done)[k] == i;
        assert(indices(active)[k] == active[k]);
        assert(with_frames(codes, active, rows)[active[k] as int] == codes[active[k] as int].push(
            rows[k],
        ));
    }
}

/// No text of a batch gets more frames than it may have.
pub proof fn law_batch_frames(b: BatchSynthesis, i: int)
    requires
        b.wf(),
        !(b.stage is Single),
        0 <= i < b.codes@.len(),
    ensures
        b.codes@[i]@.len() <= b.limits@[i],
{
    assert(all_values(b.codes@)[i] == values(b.codes@[i]@));
    assert(values(b.codes@[i]@).len() == b.codes@[i]@.len());
}

/// A chunk of a text of a streamed batch has a frame, and not more of them than a
/// chunk has.
pub proof fn law_batch_chunk(
    s: BatchStreaming,
    batch: Option<Batch>,
    from: int,
    lane: int,
    turn: StreamTurn,
)
    requires
        s.wf(),
        s.decodes(batch, lane, turn),
        is_next_lane(all_values(s.buffers@), from, lane),
        0 <= from,
        lane < s.count(),
    ensures
        0 < all_values(s.buffers@)[lane].len() <= s.chunk_frames,
{
    assert(all_values(s.buffers@).len() == s.buffers@.len());
}

/// When batched streaming ends, the frames of each text were handed to the decoder or
/// passed over with an error, chunk by chunk: as many in each chunk as a chunk has,
/// but for the last one, none lost, repeated or reordered. No text has more frames
/// than its options allow.
pub proof fn law_batch_chunks(s: BatchStreaming, from: int, i: int)
    requires
        s.is_idle(),
        s.tracks(s.all_over()),
        s.is_empty_before(from),
        s.flushes(from, StreamTurn::End),
        0 <= i < s.count(),
    ensures
        are_chunks(s.made@[i], s.chunk_frames as int, s.chunks@[i]),
        s.made@[i].len() <= s.limits@[i],
{
    let codes = all_values(s.buffers@);
    assert(codes.len() == s.count());
    assert(codes[i] == values(s.buffers@[i]@));
    assert(codes[i].len() == s.buffers@[i]@.len());
    let lane = choose|lane: int| #[trigger] is_next_lane(codes, from, lane) && lane >= s.count();
    assert(codes[i].len() == 0);
    let made = s.made@[i];
    assert(is_cut(made, codes[i], s.chunks@[i], s.chunk_frames as int, true));
    assert(made.take(made.len() as int) =~= made);
}

/// Weights filtered by one prefix and then by another are those under both.
pub proof fn law_filter_twice(weights: Map<Seq<char>, Tensor>, a: Seq<char>, b: Seq<char>)
    ensures
        under_prefix(under_prefix(weights, a), b) == under_prefix(weights, a + b),
{
    let twice = under_prefix(under_prefix(weights, a), b);
    let once = under_prefix(weights, a + b);
    assert forall|k: Seq<char>| #[trigger] (a + (b + k)) == (a + b) + k by {
        assert(a + (b + k) =~= (a + b) + k);
    }
    assert(twice =~= once);
}

/// Names of devices that differ only in the case of their letters ask for the
/// same device.
pub proof fn law_case(a: Seq<char>, b: Seq<char>, cuda: bool, metal: bool)
    requires
        ascii(a),
        ascii(b),
        a.len() == b.len(),
        forall|i: int| 0 <= i < a.len() ==> lower(#[trigger] a[i]) == lower(b[i]),
    ensures
        wanted(a.map_values(|c: char| lower(c)), cuda, metal) == wanted(
            b.map_values(|c: char| lower(c)),
            cuda,
            metal,
        ),
{
    assert(a.map_values(|c: char| lower(c)) =~= b.map_values(|c: char| lower(c)));
}

/// What the name `auto` gives is what [`auto_device`](crate::device::auto_device) gives:
/// the best device, whatever the hardware.
pub proof fn law_auto(
    r: Result<candle_core::Device, DeviceError>,
    name: Seq<char>,
    cuda: bool,
    metal: Metal,
)
    requires
        name == "auto"@,
        serves(r, name, wanted(name, cuda, metal is Some), metal),
    ensures
        r matches Ok(d) && is_best_device(d, metal),
{
}

/// Two searches that find the same give a device of the same kind, so that the name
/// `auto` and [`auto_device`](crate::device::auto_device) agree wherever the machine
/// answers both alike. A CUDA device that was searched for is the one with number zero.
pub proof fn law_auto_kind(
    cuda: Option<candle_core::Device>,
    metal: Metal,
    d: candle_core::Device,
    e: candle_core::Device,
)
    requires
        is_first_card(cuda),
        is_choice(cuda, opened(metal), d),
        is_choice(cuda, opened(metal), e),
    ensures
        kind_of(device_location(d)) == kind_of(device_location(e)),
        device_location(d) is Cuda ==> device_location(d) == Location::Cuda(0) || opened(metal)
            == Some(d),
        is_best_device(d, metal),
{
}

/// A name that is none of those that are known is refused, in every build.
pub proof fn law_unknown(
    r: Result<candle_core::Device, DeviceError>,
    name: Seq<char>,
    cuda: bool,
    metal: Metal,
)
    requires
        name != "auto"@,
        name != "cpu"@,
        name != "metal"@,
        name != "cuda"@,
        !("cuda:"@.is_prefix_of(name) && index_value(name.skip(5)) is Some),
        serves(r, name, wanted(name, cuda, metal is Some), metal),
    ensures
        r is Err,
{
}

/// What generation goes by are the options themselves, each under its own name.
pub proof fn law_options_kept(o: SynthesisOptions)
    ensures
        o.gen_config().max_new_tokens == o.max_length,
        o.gen_config().temperature == o.temperature,
        o.gen_config().top_k == o.top_k,
        o.gen_config().top_p == o.top_p,
        o.gen_config().repetition_penalty == o.repetition_penalty,
        o.gen_config().eos_token_id == o.eos_token_id,
        o.gen_config().min_new_tokens == o.min_new_tokens,
        o.gen_config().seed == o.seed,
{
}

/// Cloning in context changes two of the options: the limit is the lesser of that of the
/// options and of six frames for each token of the text, of which there are 75 in any
/// case; the penalty is the greater of that of the options and of one and a half.
pub proof fn law_clone_options(o: SynthesisOptions, text_tokens: nat)
    ensures
        ({
            let c = o.clone_config(true, text_tokens);
            let by_text: int = if text_tokens * 6 > 75 {
                (text_tokens * 6) as int
            } else {
                75
            };
            let floor: int = 0x3FF8_0000_0000_0000;
            &&& c.max_new_tokens <= o.max_length
            &&& c.max_new_tokens <= by_text
            &&& c.max_new_tokens == o.max_length || c.max_new_tokens == by_text
            &&& c.repetition_penalty.order() >= floor
            &&& c.repetition_penalty == o.repetition_penalty || c.repetition_penalty.order() == floor
            &&& !o.repetition_penalty.is_nan() ==> c.repetition_penalty.order()
                >= o.repetition_penalty.order()
            &&& c == (GenerationConfig {
                max_new_tokens: c.max_new_tokens,
                repetition_penalty: c.repetition_penalty,
                ..o.gen_config()
            })
        }),
{
}

/// A text of a batch may have six frames for each of its words and fifty more, but no more
/// than 512 of them, and no more than its options allow.
pub proof fn law_batch_limit(o: SynthesisOptions, words: nat)
    ensures
        ({
            let limit = o.batch_frames(words);
            &&& limit <= o.max_length
            &&& limit <= 512
            &&& limit <= words * 6 + 50
            &&& limit == o.max_length || limit == 512 || limit == words * 6 + 50
        }),
{
}

/// The name `cpu` gives the CPU, in every build. In a build with CUDA the name `cuda` asks
/// for the card with number zero, and `cuda:` with a number for the card with that number.
pub proof fn law_named(
    r: Result<candle_core::Device, DeviceError>,
    name: Seq<char>,
    cuda: bool,
    metal: Metal,
    n: usize,
)
    requires
        serves(r, name, wanted(name, cuda, metal is Some), metal),
    ensures
        name == "cpu"@ ==> (r matches Ok(d) && device_location(d) == Location::Cpu),
        name == "cuda"@ && cuda ==> (r matches Ok(d) ==> device_location(d) == Location::Cuda(0)
            || device_location(d) == Location::Cpu),
        "cuda:"@.is_prefix_of(name) && index_value(name.skip(5)) == Some(n) && cuda ==> (
        r matches Ok(d) ==> device_location(d) == Location::Cuda(n) || device_location(d)
            == Location::Cpu),
        ("cuda:"@.is_prefix_of(name) || name == "cuda"@) && !cuda ==> (r matches Err(e)
            && e is CudaNotCompiled),
        "cuda:"@.is_prefix_of(name) && index_value(name.skip(5)) is None && cuda ==> (
        r matches Err(e) && e is InvalidCudaIndex),
{
    reveal_strlit("auto");
    reveal_strlit("cpu");
    reveal_strlit("cuda");
    reveal_strlit("cuda:");
    if "cuda:"@.is_prefix_of(name) {
        assert(name.len() >= 5);
        assert(name[0] == 'c') by {
            assert("cuda:"@[0] == name[0]);
        }
    }
    if name == "cpu"@ {
        assert("cpu"@[0] != "auto"@[0]);
    }
    if name == "cuda"@ {
        assert("cuda"@[0] != "auto"@[0]);
    }
}

} // verus!
