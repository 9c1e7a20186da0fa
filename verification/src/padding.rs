//! Prompts of different lengths side by side: padding at the left, and the mask
//! that hides it.
use crate::error::TtsError;
use crate::grid::{
    cells_of, countable, lemma_shape3, volume, DType, Grid, Location, NEG_INFINITY,
};
use crate::ops::{concat2, is_countable};
use crate::tensor::{
    copy, device_location, dims, dtype, from_float_bits, grid, tensor_dims, unsqueeze, zeros,
};
use candle_core::{Device, Tensor};
use vstd::prelude::*;

verus! {

/// Whether position `i` of a sequence must not look at position `j`: it comes
/// later, or it is padding.
pub open spec fn is_hidden(is_token: Seq<bool>, i: int, j: int) -> bool {
    j > i || !is_token[j]
}

/// The cell for positions `i` and `j` of one sequence.
pub open spec fn mask_cell(is_token: Seq<bool>, i: int, j: int) -> int {
    if is_hidden(is_token, i, j) {
        NEG_INFINITY as int
    } else {
        0
    }
}

/// The cells of one sequence, row by row.
pub open spec fn mask_plane(is_token: Seq<bool>, len: nat) -> Seq<int> {
    Seq::new(len * len, |k: int| mask_cell(is_token, k / len as int, k % len as int))
}

/// The cells of all sequences, one after the other.
pub open spec fn mask_planes(masks: Seq<Vec<bool>>, len: nat) -> Seq<int>
    decreases masks.len(),
{
    if masks.len() == 0 {
        Seq::empty()
    } else {
        mask_planes(masks.drop_last(), len) + mask_plane(masks.last()@, len)
    }
}

/// The contents of a mask for sequences of `len` positions.
pub open spec fn mask_grid(masks: Seq<Vec<bool>>, len: usize, location: Location) -> Grid {
    Grid {
        dtype: DType::F32,
        location,
        dims: seq![masks.len() as usize, 1, len, len],
        cells: mask_planes(masks, len as nat),
    }
}

/// Append the cells of one sequence.
fn push_mask(data: &mut Vec<u32>, is_token: &Vec<bool>, len: usize)
    requires
        is_token@.len() >= len,
    ensures
        cells_of(final(data)@) == cells_of(old(data)@) + mask_plane(
            is_token@,
            len as nat,
        ),
{
    let ghost start = cells_of(data@);
    let ghost full = mask_plane(is_token@, len as nat);
    assert(start + full.take(0) =~= start);
    let mut i: usize = 0;
    while i < len
        invariant
            i <= len,
            is_token@.len() >= len,
            full == mask_plane(is_token@, len as nat),
            cells_of(data@) == start + full.take(i * len),
        decreases len - i,
    {
        let mut j: usize = 0;
        while j < len
            invariant
                i < len,
                j <= len,
                is_token@.len() >= len,
                full == mask_plane(is_token@, len as nat),
                cells_of(data@) == start + full.take(i * len + j),
            decreases len - j,
        {
            let cell: u32 = if j > i || !is_token[j] {
                NEG_INFINITY
            } else {
                0
            };
            let ghost k = i * len + j;
            let ghost before = data@;
            data.push(cell);
            proof {
                assert(k < len * len) by (nonlinear_arith)
                    requires
                        k == i * len + j,
                        j < len,
                        i < len,
                ;
                assert(0 <= i * len) by (nonlinear_arith);
                vstd::arithmetic::div_mod::lemma_fundamental_div_mod_converse(
                    k,
                    len as int,
                    i as int,
                    j as int,
                );
                assert(full[k] == cell);
                assert(full.take(k + 1) =~= full.take(k).push(full[k]));
                assert(cells_of(data@) =~= cells_of(before).push(
                    cell as int,
                ));
                assert(start + full.take(k + 1) =~= (start + full.take(k)).push(full[k]));
            }
            j = j + 1;
        }
        assert(i * len + len == (i + 1) * len) by (nonlinear_arith);
        i = i + 1;
    }
    assert(full.take(len * len) =~= full);
}

/// The mask of `n` sequences has so many cells.
proof fn lemma_mask_len(masks: Seq<Vec<bool>>, len: nat)
    ensures
        mask_planes(masks, len).len() == masks.len() * (len * len),
    decreases masks.len(),
{
    if masks.len() > 0 {
        lemma_mask_len(masks.drop_last(), len);
        let n = masks.len() - 1;
        assert((n + 1) * (len * len) == n * (len * len) + len * len) by (nonlinear_arith);
    } else {
        assert(0 * (len * len) == 0) by (nonlinear_arith);
    }
}

/// Build a causal attention mask `[N, 1, len, len]` in which later positions and
/// padding are minus infinity.
pub fn build_batched_causal_mask(masks: &Vec<Vec<bool>>, len: usize, device: &Device) -> (r: Result<
    Tensor,
    TtsError,
>)
    requires
        forall|b: int| 0 <= b < masks@.len() ==> (#[trigger] masks@[b])@.len() >= len,
    ensures
        r matches Ok(t) ==> grid(t) == mask_grid(masks@, len, device_location(*device)),
        r matches Err(e) ==> e.is_computing(),
        device_location(*device) is Cpu && countable(seq![masks@.len() as usize, len, len])
            ==> r is Ok,
{
    let n = masks.len();
    let shape: Vec<usize> = vec![n, len, len];
    assert(shape@ =~= seq![n, len, len]);
    if !is_countable(&shape) {
        return Err(TtsError::Overflow);
    }
    let mut data: Vec<u32> = Vec::new();
    let mut b: usize = 0;
    assert(cells_of(data@) =~= mask_planes(masks@.take(0), len as nat));
    while b < n
        invariant
            b <= n,
            n == masks@.len(),
            forall|c: int| 0 <= c < masks@.len() ==> (#[trigger] masks@[c])@.len() >= len,
            cells_of(data@) == mask_planes(masks@.take(b as int), len as nat),
        decreases n - b,
    {
        push_mask(&mut data, &masks[b], len);
        proof {
            assert(masks@.take(b + 1).drop_last() =~= masks@.take(b as int));
            assert(masks@.take(b + 1).last() == masks@[b as int]);
        }
        b = b + 1;
    }
    proof {
        assert(masks@.take(n as int) =~= masks@);
        lemma_mask_len(masks@, len as nat);
        lemma_shape3(n, len, len);
        assert(data@.len() == cells_of(data@).len());
        assert(n * (len * len) == n * len * len) by (nonlinear_arith);
    }
    match from_float_bits(&data, &shape, device) {
        Ok(t) => match unsqueeze(&t, 1) {
            Ok(m) => {
                assert(tensor_dims(m) =~= seq![n, 1, len, len]);
                Ok(m)
            },
            Err(e) => Err(TtsError::Tensor(e)),
        },
        Err(e) => Err(TtsError::Tensor(e)),
    }
}

/// The number of positions of an embedded prompt.
pub open spec fn positions(g: Grid) -> nat {
    if g.dims.len() > 1 {
        g.dims[1] as nat
    } else {
        0
    }
}

/// The greatest number of positions.
pub open spec fn longest_of(embeds: Seq<Tensor>) -> nat
    decreases embeds.len(),
{
    if embeds.len() == 0 {
        0
    } else {
        let before = longest_of(embeds.drop_last());
        let n = positions(grid(embeds.last()));
        if n > before {
            n
        } else {
            before
        }
    }
}

/// No prompt is longer than the longest.
pub proof fn lemma_longest(embeds: Seq<Tensor>, i: int)
    requires
        0 <= i < embeds.len(),
    ensures
        positions(grid(embeds[i])) <= longest_of(embeds),
    decreases embeds.len(),
{
    if i < embeds.len() - 1 {
        lemma_longest(embeds.drop_last(), i);
    }
}

/// The greatest number of positions of embedded prompts.
pub fn longest(embeds: &Vec<Tensor>) -> (r: usize)
    ensures
        r == longest_of(embeds@),
{
    let mut most: usize = 0;
    let mut i: usize = 0;
    while i < embeds.len()
        invariant
            i <= embeds@.len(),
            most == longest_of(embeds@.take(i as int)),
        decreases embeds@.len() - i,
    {
        let d = dims(&embeds[i]);
        let n: usize = if d.len() > 1 {
            d[1]
        } else {
            0
        };
        proof {
            assert(embeds@.take(i + 1).drop_last() =~= embeds@.take(i as int));
            assert(embeds@.take(i + 1).last() == embeds@[i as int]);
        }
        if n > most {
            most = n;
        }
        i = i + 1;
    }
    assert(embeds@.take(embeds@.len() as int) =~= embeds@);
    most
}

/// So many positions of zeros before a prompt.
pub open spec fn zero_positions(g: Grid, len: usize, width: usize, location: Location) -> Grid {
    let dims = seq![1usize, len, width];
    Grid { dtype: g.dtype, location, dims, cells: Seq::new(volume(dims), |i: int| 0int) }
}

/// That `r` is an embedded prompt, filled up to `len` positions with zeros at
/// the left.
pub open spec fn is_padded(
    embed: Tensor,
    len: usize,
    width: usize,
    location: Location,
    r: Tensor,
) -> bool {
    let n = positions(grid(embed));
    if n < len {
        let zeros = zero_positions(grid(embed), (len - n) as usize, width, location);
        zeros.fits(grid(embed), 1) && grid(r) == zeros.join(grid(embed), 1)
    } else {
        r == embed
    }
}

/// Whether an embedded prompt can be filled up on the CPU.
pub open spec fn fits_padding(g: Grid, len: usize, width: usize, location: Location) -> bool {
    &&& location is Cpu
    &&& g.location is Cpu
    &&& g.dtype != DType::Other
    &&& g.dims.len() == 3
    &&& g.dims == seq![1usize, g.dims[1], width]
    &&& g.dims[1] <= len
    &&& countable(seq![1usize, len, width])
    &&& countable(seq![1usize, (len - g.dims[1]) as usize, width])
}

/// Fill an embedded prompt up with zeros at the left.
pub fn pad_left(embed: &Tensor, len: usize, width: usize, device: &Device) -> (r: Result<
    Tensor,
    TtsError,
>)
    ensures
        r matches Ok(t) ==> is_padded(*embed, len, width, device_location(*device), t),
        r matches Err(e) ==> e.is_computing() || e is BadShape,
        positions(grid(*embed)) >= len ==> r is Ok,
        fits_padding(grid(*embed), len, width, device_location(*device)) ==> r is Ok,
{
    let d = dims(embed);
    let n: usize = if d.len() > 1 {
        d[1]
    } else {
        0
    };
    if n >= len {
        return Ok(copy(embed));
    }
    let kind = dtype(embed);
    match kind {
        DType::Other => {
            return Err(TtsError::BadShape);
        },
        _ => {},
    }
    let missing: usize = len - n;
    let shape: Vec<usize> = vec![1, missing, width];
    assert(shape@ =~= seq![1usize, (len - n) as usize, width]);
    if !is_countable(&shape) {
        return Err(TtsError::Overflow);
    }
    match zeros(&shape, kind, device) {
        Ok(z) => {
            proof {
                if fits_padding(grid(*embed), len, width, device_location(*device)) {
                    let both = seq![grid(z), grid(*embed)];
                    assert(both.drop_last() =~= seq![grid(z)]);
                    assert(seq![grid(z)].drop_last() =~= Seq::<Grid>::empty());
                    reveal_with_fuel(crate::grid::axis_total, 3);
                    assert(crate::grid::axis_total(both, 1) == len);
                    assert(shape@.update(1, len) =~= seq![1usize, len, width]);
                }
            }
            concat2(&z, embed, 1)
        },
        Err(e) => Err(TtsError::Tensor(e)),
    }
}

/// Which positions hold tokens: the last `n` of `len`.
pub open spec fn tokens_at_end(n: nat, len: nat) -> Seq<bool> {
    Seq::new(len, |j: int| j >= len - n)
}

/// Which positions of a padded prompt hold tokens.
pub fn token_positions(n: usize, len: usize) -> (r: Vec<bool>)
    requires
        n <= len,
    ensures
        r@ == tokens_at_end(n as nat, len as nat),
{
    let mut out: Vec<bool> = Vec::new();
    let mut j: usize = 0;
    while j < len
        invariant
            n <= len,
            j <= len,
            out@ == tokens_at_end(n as nat, len as nat).take(j as int),
        decreases len - j,
    {
        out.push(j >= len - n);
        assert(tokens_at_end(n as nat, len as nat).take(j + 1) =~= tokens_at_end(
            n as nat,
            len as nat,
        ).take(j as int).push(j >= len - n));
        j = j + 1;
    }
    assert(tokens_at_end(n as nat, len as nat).take(len as int) =~= tokens_at_end(
        n as nat,
        len as nat,
    ));
    out
}

} // verus!
