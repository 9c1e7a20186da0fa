//! One step after the other from logits to a frame.
use crate::error::TtsError;
use crate::grid::{
    cells_of, countable, inner, lemma_shape1, lemma_shape2, outer, volume, weave, DType, Grid,
    NEG_INFINITY, ONE,
};
use crate::ops::{cast, concat2, is_countable, numbers, part, shaped, sized, sum};
use crate::options::GenerationConfig;
use crate::tensor::{
    assign_cell, broadcast, copy, device_location, device_of, dims, dtype, from_float_bits, from_u32,
    greater, grid, has_cell, is_converted, is_sum, ones, select, squeeze, tensor_cells, tensor_dims,
    tensor_dtype, tensor_location, unsqueeze, zeros,
};
use candle_core::{Device, Tensor};
use vstd::prelude::*;

verus! {

/// A penalty mask in which one more token is marked, if it is in the vocabulary.
pub open spec fn marked(mask: Grid, token: u32, vocab_size: usize) -> Grid {
    if token < vocab_size {
        Grid { cells: mask.cells.update(token as int, ONE as int), ..mask }
    } else {
        mask
    }
}

/// Mark a token in a penalty mask `[1, vocab]`. A token beyond the vocabulary
/// changes nothing.
pub fn update_penalty_mask(penalty_mask: &mut Tensor, token_id: u32, vocab_size: usize) -> (r: Result<
    (),
    TtsError,
>)
    ensures
        r is Ok ==> grid(*final(penalty_mask)) == marked(grid(*old(penalty_mask)), token_id, vocab_size),
        r is Err ==> *final(penalty_mask) == *old(penalty_mask),
        r matches Err(e) ==> e.is_computing(),
        token_id >= vocab_size ==> r is Ok && *final(penalty_mask) == *old(penalty_mask),
        grid(*old(penalty_mask)).at_hand() && has_cell(
            grid(*old(penalty_mask)),
            0,
            token_id as usize,
        ) && tensor_dtype(*old(penalty_mask)) == DType::F32 ==> r is Ok,
{
    let idx = token_id as usize;
    if idx < vocab_size {
        let device = device_of(penalty_mask);
        let single: Vec<usize> = vec![1, 1];
        proof {
            assert(single@ =~= seq![1usize, 1usize]);
            lemma_shape2(1, 1);
        }
        let one = match ones(&single, &device) {
            Ok(t) => t,
            Err(e) => {
                return Err(TtsError::Tensor(e));
            },
        };
        match sized(penalty_mask) {
            Ok(_) => {},
            Err(e) => {
                return Err(e);
            },
        }
        match assign_cell(penalty_mask, 0, idx, &one) {
            Ok(t) => {
                *penalty_mask = t;
            },
            Err(e) => {
                return Err(TtsError::Tensor(e));
            },
        }
    }
    Ok(())
}

/// Logits in which one column is minus infinity on every row.
pub open spec fn column_suppressed(logits: Grid, col: int) -> Grid {
    Grid {
        cells: Seq::new(
            logits.cells.len(),
            |k: int|
                if k % logits.dims[1] as int == col {
                    NEG_INFINITY as int
                } else {
                    logits.cells[k]
                },
        ),
        ..logits
    }
}

/// Set one column of logits `[batch, vocab]` to minus infinity.
pub fn suppress_column(logits: &Tensor, col: usize) -> (r: Result<Tensor, TtsError>)
    ensures
        r matches Ok(t) ==> grid(t) == column_suppressed(grid(*logits), col as int),
        r matches Err(e) ==> e.is_computing() || e is BadShape || e is EosOutsideVocabulary,
        (r matches Err(e) && e is BadShape) <==> !(tensor_dims(*logits).len() == 2 && tensor_dtype(
            *logits,
        ) == DType::F32),
        (r matches Err(e) && e is EosOutsideVocabulary) <==> tensor_dims(*logits).len() == 2
            && tensor_dtype(*logits) == DType::F32 && col >= tensor_dims(*logits)[1],
        grid(*logits).at_hand() && tensor_dims(*logits).len() == 2 && tensor_dtype(*logits)
            == DType::F32 && col < tensor_dims(*logits)[1] ==> r is Ok,
{
    let d = dims(logits);
    let is_float = match dtype(logits) {
        DType::F32 => true,
        _ => false,
    };
    if d.len() != 2 || !is_float {
        return Err(TtsError::BadShape);
    }
    let batch = d[0];
    let vocab = d[1];
    if col >= vocab {
        return Err(TtsError::EosOutsideVocabulary);
    }
    if !is_countable(&d) {
        return Err(TtsError::Overflow);
    }
    if batch == 0 {
        proof {
            assert(d@ =~= seq![batch, vocab]);
            lemma_shape2(batch, vocab);
            assert(tensor_cells(*logits) =~= column_suppressed(grid(*logits), col as int).cells);
        }
        return Ok(copy(logits));
    }
    proof {
        assert(d@ =~= seq![batch, vocab]);
        lemma_shape2(batch, vocab);
        lemma_shape1(vocab);
        lemma_shape1(1);
        lemma_last_axis(d@);
        assert(batch * vocab > 0) by (nonlinear_arith)
            requires
                batch > 0,
                vocab > 0,
        ;
    }
    let mut mask_data: Vec<u32> = Vec::new();
    let mut i: usize = 0;
    while i < vocab
        invariant
            i <= vocab,
            mask_data@.len() == i,
            forall|j: int|
                0 <= j < i ==> mask_data@[j] == if j == col {
                    ONE
                } else {
                    0
                },
        decreases vocab - i,
    {
        mask_data.push(
            if i == col {
                ONE
            } else {
                0
            },
        );
        i = i + 1;
    }
    let device = device_of(logits);
    let row_shape: Vec<usize> = vec![vocab];
    assert(row_shape@ =~= seq![vocab]);
    let row = match from_float_bits(&mask_data, &row_shape, &device) {
        Ok(t) => t,
        Err(e) => {
            return Err(TtsError::Tensor(e));
        },
    };
    let row = match unsqueeze(&row, 0) {
        Ok(t) => t,
        Err(e) => {
            return Err(TtsError::Tensor(e));
        },
    };
    assert(tensor_dims(row) =~= seq![1usize, vocab]);
    let eos_mask = match broadcast(&row, batch, vocab) {
        Ok(t) => t,
        Err(e) => {
            return Err(TtsError::Tensor(e));
        },
    };
    let lowest: Vec<u32> = vec![NEG_INFINITY];
    let single: Vec<usize> = vec![1];
    assert(single@ =~= seq![1usize]);
    let neg = match from_float_bits(&lowest, &single, &device) {
        Ok(t) => t,
        Err(e) => {
            return Err(TtsError::Tensor(e));
        },
    };
    let neg_inf = match broadcast(&neg, batch, vocab) {
        Ok(t) => t,
        Err(e) => {
            return Err(TtsError::Tensor(e));
        },
    };
    let zero = match zeros(&d, DType::F32, &device) {
        Ok(t) => t,
        Err(e) => {
            return Err(TtsError::Tensor(e));
        },
    };
    let is_eos = match greater(&eos_mask, &zero) {
        Ok(t) => t,
        Err(e) => {
            return Err(TtsError::Tensor(e));
        },
    };
    match select(&is_eos, &neg_inf, logits) {
        Ok(t) => {
            proof {
                let want = column_suppressed(grid(*logits), col as int);
                assert forall|k: int| 0 <= k < batch * vocab implies #[trigger] tensor_cells(t)[k]
                    == want.cells[k] by {
                    let q = k / vocab as int;
                    let m = k % vocab as int;
                    lemma_row_col(k, batch as int, vocab as int);
                    assert(tensor_cells(eos_mask)[q * vocab + m] == tensor_cells(row)[m]);
                    assert(tensor_cells(row)[m] == mask_data@[m]);
                }
                assert(tensor_cells(t) =~= want.cells);
            }
            Ok(t)
        },
        Err(e) => Err(TtsError::Tensor(e)),
    }
}

/// A cell's row and column.
pub proof fn lemma_row_col(k: int, rows: int, cols: int)
    requires
        0 <= k < rows * cols,
        cols > 0,
    ensures
        0 <= k / cols < rows,
        0 <= k % cols < cols,
        k == (k / cols) * cols + k % cols,
{
    vstd::arithmetic::div_mod::lemma_fundamental_div_mod(k, cols);
    vstd::arithmetic::div_mod::lemma_mod_bound(k, cols);
    assert(k / cols < rows) by (nonlinear_arith)
        requires
            0 <= k < rows * cols,
            cols > 0,
    ;
    assert(0 <= k / cols) by (nonlinear_arith)
        requires
            0 <= k,
            cols > 0,
    ;
    assert((k / cols) * cols == cols * (k / cols)) by (nonlinear_arith);
}

/// The last axis of a countable shape is countable.
proof fn lemma_last_axis(d: Seq<usize>)
    requires
        d.len() > 0,
        countable(d),
    ensures
        countable(seq![d.last()]),
{
    let one = seq![d.last()];
    lemma_shape1(d.last());
    crate::ops::lemma_span(d.drop_last());
    let s = crate::grid::span(d.drop_last());
    let k: nat = if d.last() == 0 {
        1
    } else {
        d.last() as nat
    };
    assert(s * k >= k) by (nonlinear_arith)
        requires
            s >= 1,
            k >= 1,
    ;
}

/// The logits to sample from: while fewer tokens were sampled than have to be,
/// end-of-sequence has no chance.
pub open spec fn held_back(logits: Grid, config: GenerationConfig, token_count: int) -> Grid {
    if token_count < config.min_new_tokens && config.eos_token_id is Some {
        column_suppressed(logits, config.eos_token_id->0 as int)
    } else {
        logits
    }
}

/// Keep end-of-sequence from being sampled too early.
pub fn hold_back_eos(logits: Tensor, config: &GenerationConfig, token_count: usize) -> (r: Result<
    Tensor,
    TtsError,
>)
    ensures
        r matches Ok(t) ==> grid(t) == held_back(grid(logits), *config, token_count as int),
        r matches Err(e) ==> e.is_computing() || e is BadShape || e is EosOutsideVocabulary,
        !(token_count < config.min_new_tokens && config.eos_token_id is Some) ==> r
            == Ok::<Tensor, TtsError>(logits),
        grid(logits).at_hand() && tensor_dims(logits).len() == 2 && tensor_dtype(logits)
            == DType::F32 && (config.eos_token_id is Some ==> config.eos_token_id->0 < tensor_dims(
            logits,
        )[1]) ==> r is Ok,
{
    if token_count < config.min_new_tokens {
        if let Some(eos_id) = config.eos_token_id {
            return suppress_column(&logits, eos_id as usize);
        }
    }
    Ok(logits)
}

/// An axis of size one adds nothing to the span.
pub proof fn lemma_span_without(dims: Seq<usize>, axis: int)
    requires
        0 <= axis < dims.len(),
        dims[axis] == 1,
    ensures
        crate::grid::span(dims.remove(axis)) == crate::grid::span(dims),
    decreases dims.len(),
{
    if axis == dims.len() - 1 {
        assert(dims.remove(axis) =~= dims.drop_last());
        let s = crate::grid::span(dims.drop_last());
        assert(s * 1 == s);
        assert(dims.last() == 1);
    } else {
        assert(dims.remove(axis).drop_last() =~= dims.drop_last().remove(axis));
        assert(dims.remove(axis).last() == dims.last());
        lemma_span_without(dims.drop_last(), axis);
    }
}

/// That `r` are the logits of the talker without their middle axis, in single
/// precision.
pub open spec fn are_logits(raw: Grid, r: Grid) -> bool {
    raw.dims.len() > 1 && is_converted(raw.squeeze(1), DType::F32, r)
}

/// The logits of one position as the penalties take them.
pub fn to_logits(raw: &Tensor) -> (r: Result<Tensor, TtsError>)
    ensures
        r matches Ok(t) ==> are_logits(grid(*raw), grid(t)),
        r matches Err(e) ==> e.is_computing(),
        grid(*raw).at_hand() && tensor_dims(*raw).len() > 1 && tensor_dtype(*raw).is_float() ==> r is Ok,
{
    match squeeze(raw, 1) {
        Ok(t) => {
            proof {
                if tensor_dims(*raw)[1] == 1 {
                    lemma_span_without(tensor_dims(*raw), 1);
                }
            }
            cast(&t, DType::F32)
        },
        Err(e) => Err(TtsError::Tensor(e)),
    }
}

/// The token that was sampled.
pub fn sampled_token(t: &Tensor) -> (r: Result<u32, TtsError>)
    ensures
        r matches Ok(id) ==> tensor_dtype(*t) == DType::U32 && tensor_cells(*t).len() > 0 && id
            == tensor_cells(*t)[0],
        r matches Err(e) ==> e.is_computing() || e is EmptyToken,
        (r matches Err(e) && e is EmptyToken) ==> tensor_cells(*t).len() == 0,
        grid(*t).at_hand() && tensor_dtype(*t) == DType::U32 && tensor_cells(*t).len() > 0 ==> r is Ok,
{
    match numbers(t) {
        Ok(v) => {
            assert(v@.len() == cells_of(v@).len());
            if v.len() == 0 {
                Err(TtsError::EmptyToken)
            } else {
                assert(cells_of(v@)[0] == v@[0]);
                Ok(v[0])
            }
        },
        Err(e) => Err(e),
    }
}

/// The last position of what the layers gave, and the number of positions.
pub fn last_position(hidden: &Tensor) -> (r: Result<(Tensor, usize), TtsError>)
    ensures
        r matches Ok((t, n)) ==> {
            &&& tensor_dims(*hidden).len() > 1
            &&& n == tensor_dims(*hidden)[1]
            &&& n > 0
            &&& grid(t) == grid(*hidden).narrow(1, (n - 1) as usize, 1)
        },
        r is Ok <==> tensor_dims(*hidden).len() > 1 && tensor_dims(*hidden)[1] > 0,
        (r matches Err(e) && e is BadShape) <==> tensor_dims(*hidden).len() <= 1,
        (r matches Err(e) && e is EmptyPrefill) <==> tensor_dims(*hidden).len() > 1 && tensor_dims(
            *hidden,
        )[1] == 0,
{
    let d = dims(hidden);
    if d.len() <= 1 {
        return Err(TtsError::BadShape);
    }
    let n = d[1];
    if n == 0 {
        return Err(TtsError::EmptyPrefill);
    }
    match part(hidden, 1, n - 1, 1) {
        Ok(t) => Ok((t, n)),
        Err(e) => Err(e),
    }
}

/// Two tensors with one axis, one after the other.
pub proof fn lemma_join_line(a: Grid, b: Grid)
    requires
        a.dims.len() == 1,
        a.fits(b, 0),
        a.cells.len() == volume(a.dims),
        b.cells.len() == volume(b.dims),
    ensures
        a.join(b, 0).cells == a.cells + b.cells,
        a.cells.len() == a.dims[0],
        b.cells.len() == b.dims[0],
{
    assert(a.dims =~= seq![a.dims[0]]);
    assert(b.dims =~= seq![b.dims[0]]);
    lemma_shape1(a.dims[0]);
    lemma_shape1(b.dims[0]);
    assert(a.dims.take(0).len() == 0);
    assert(a.dims.skip(1).len() == 0);
    assert(b.dims.skip(1).len() == 0);
    assert(outer(a.dims, 0) == 1);
    assert(inner(a.dims, 0) == 1);
    assert(inner(b.dims, 0) == 1);
    let ab = a.dims[0] as nat;
    let bb = b.dims[0] as nat;
    assert(ab * inner(a.dims, 0) == ab) by (nonlinear_arith)
        requires
            inner(a.dims, 0) == 1,
    ;
    assert(bb * inner(b.dims, 0) == bb) by (nonlinear_arith)
        requires
            inner(b.dims, 0) == 1,
    ;
    assert(weave(a.cells, b.cells, ab, bb, 0) =~= Seq::<int>::empty());
    assert(weave(a.cells, b.cells, ab, bb, 1) =~= a.cells + b.cells) by {
        assert(0 * ab == 0);
        assert(0 * bb == 0);
        reveal_with_fuel(weave, 2);
    }
}

/// That a frame is a semantic code followed by acoustic codes.
pub open spec fn is_frame_of(semantic: int, acoustic: Grid, frame: Grid) -> bool {
    &&& acoustic.dims.len() == 1
    &&& acoustic.dtype == DType::U32
    &&& frame == (Grid {
        dims: seq![(acoustic.dims[0] + 1) as usize],
        cells: seq![semantic] + acoustic.cells,
        ..acoustic
    })
}

/// Whether acoustic codes can become part of a frame on the CPU.
pub open spec fn are_acoustic(acoustic: Grid) -> bool {
    acoustic.at_hand() && acoustic.dims.len() == 1 && acoustic.dtype == DType::U32
        && acoustic.dims[0] < 1024
}

/// Join a semantic code on one axis to acoustic codes.
fn join_codes(semantic: &Tensor, acoustic: &Tensor) -> (r: Result<Tensor, TtsError>)
    requires
        tensor_dims(*semantic) == seq![1usize],
        tensor_dtype(*semantic) == DType::U32,
        tensor_cells(*semantic).len() == 1,
    ensures
        r matches Ok(f) ==> is_frame_of(tensor_cells(*semantic)[0], grid(*acoustic), grid(f)),
        r matches Err(e) ==> e.is_computing(),
        are_acoustic(grid(*acoustic)) && tensor_location(*semantic) is Cpu ==> r is Ok,
{
    let _ = dims(acoustic);
    proof {
        let a = grid(*semantic);
        let b = grid(*acoustic);
        lemma_shape1(1);
        if are_acoustic(b) && tensor_location(*semantic) is Cpu {
            let both = seq![a, b];
            assert(both.drop_last() =~= seq![a]);
            assert(seq![a].drop_last() =~= Seq::<Grid>::empty());
            reveal_with_fuel(crate::grid::axis_total, 3);
            assert(crate::grid::axis_total(both, 0) == 1 + b.dims[0]);
            let d = a.dims.update(0, (1 + b.dims[0]) as usize);
            assert(d =~= seq![(1 + b.dims[0]) as usize]);
            lemma_shape1((1 + b.dims[0]) as usize);
            assert(a.fits(b, 0));
        }
        if a.fits(b, 0) {
            lemma_join_line(a, b);
            assert(a.cells + b.cells =~= seq![a.cells[0]] + b.cells);
            assert(a.join(b, 0).dims =~= seq![(b.dims[0] + 1) as usize]);
        }
    }
    concat2(semantic, acoustic, 0)
}

/// The frame of a sampled semantic token and acoustic codes.
pub fn frame_from_tensor(token: &Tensor, acoustic: &Tensor) -> (r: Result<Tensor, TtsError>)
    ensures
        r matches Ok(f) ==> tensor_cells(*token).len() == 1 && is_frame_of(
            tensor_cells(*token)[0],
            grid(*acoustic),
            grid(f),
        ),
        r matches Err(e) ==> e.is_computing() || e is BadShape,
        are_acoustic(grid(*acoustic)) && grid(*token).at_hand() && tensor_dtype(*token)
            == DType::U32 && tensor_cells(*token).len() == 1 ==> r is Ok,
{
    match dtype(token) {
        DType::U32 => {},
        _ => {
            return Err(TtsError::BadShape);
        },
    }
    let single: Vec<usize> = vec![1];
    proof {
        assert(single@ =~= seq![1usize]);
        lemma_shape1(1);
    }
    match shaped(token, &single) {
        Ok(semantic) => join_codes(&semantic, acoustic),
        Err(e) => Err(e),
    }
}

/// The frame of a semantic code and acoustic codes.
pub fn frame_from_id(id: u32, acoustic: &Tensor, device: &Device) -> (r: Result<Tensor, TtsError>)
    ensures
        r matches Ok(f) ==> is_frame_of(id as int, grid(*acoustic), grid(f)),
        r matches Err(e) ==> e.is_computing(),
        are_acoustic(grid(*acoustic)) && device_location(*device) is Cpu ==> r is Ok,
{
    let ids: Vec<u32> = vec![id];
    match from_u32(&ids, device) {
        Ok(semantic) => {
            assert(tensor_cells(semantic)[0] == id);
            join_codes(&semantic, acoustic)
        },
        Err(e) => Err(TtsError::Tensor(e)),
    }
}

/// The text that goes with a frame: the trailing text position by position, and
/// none when it is used up.
pub open spec fn text_for(trailing: Grid, trailing_len: int, pad: Grid, frame: usize) -> Grid {
    if frame < trailing_len {
        trailing.narrow(1, frame, 1)
    } else {
        pad
    }
}

/// That `input` is the sum of the embeddings of a frame and of the text that
/// goes with it.
pub open spec fn is_fused(semantic: Grid, acoustic: Grid, text: Grid, input: Grid) -> bool {
    exists|summed: Grid| #[trigger] is_sum(semantic, acoustic, summed) && is_sum(summed, text, input)
}

/// Whether a frame can be fused with its text on the CPU: the embeddings have one
/// shape and one element type.
pub open spec fn fuses_on_cpu(
    semantic: Grid,
    acoustic: Grid,
    trailing: Grid,
    trailing_len: int,
    pad: Grid,
    frame: usize,
) -> bool {
    let text = text_for(trailing, trailing_len, pad, frame);
    &&& semantic.at_hand()
    &&& acoustic.location is Cpu
    &&& semantic.dtype.is_float()
    &&& acoustic.dtype == semantic.dtype
    &&& acoustic.dims == semantic.dims
    &&& frame < trailing_len ==> trailing.has_range(1, frame, 1)
    &&& text.location is Cpu
    &&& text.dtype == semantic.dtype
    &&& text.dims == semantic.dims
}

/// What the talker is given after a frame.
pub fn step_input(
    semantic: &Tensor,
    acoustic: &Tensor,
    trailing: &Tensor,
    trailing_len: usize,
    pad: &Tensor,
    frame: usize,
) -> (r: Result<Tensor, TtsError>)
    ensures
        r matches Ok(t) ==> is_fused(
            grid(*semantic),
            grid(*acoustic),
            text_for(grid(*trailing), trailing_len as int, grid(*pad), frame),
            grid(t),
        ),
        r matches Ok(t) ==> (frame < trailing_len ==> grid(*trailing).has_range(1, frame, 1)),
        r matches Err(e) ==> e.is_computing() || e is NotFloat,
        fuses_on_cpu(
            grid(*semantic),
            grid(*acoustic),
            grid(*trailing),
            trailing_len as int,
            grid(*pad),
            frame,
        ) ==> r is Ok,
{
    let summed = match sum(semantic, acoustic) {
        Ok(t) => t,
        Err(e) => {
            return Err(e);
        },
    };
    let text = if frame < trailing_len {
        match part(trailing, 1, frame, 1) {
            Ok(t) => t,
            Err(e) => {
                return Err(e);
            },
        }
    } else {
        copy(pad)
    };
    match sum(&summed, &text) {
        Ok(t) => {
            assert(is_sum(grid(*semantic), grid(*acoustic), grid(summed)));
            Ok(t)
        },
        Err(e) => Err(e),
    }
}

} // verus!
