//! Synthesis of several texts side by side.
use crate::codes::{planes, push_plane, signed_cells, values, FrameCodes, CODEBOOKS};
use crate::error::TtsError;
use crate::grid::{
    cells_of, countable, lemma_shape1, lemma_shape3, pick, span, DType, Grid, Location,
};
use crate::generation::lemma_span_without;
use crate::ops::{flat, is_countable, lemma_span, numbers, part, sized};
use crate::options::{min_of, SAMPLES_PER_FRAME};
use crate::round::{active_of, actives, indices, lemma_actives};
use crate::tensor::{
    argmax, device_location, device_of, dims, dtype, from_i64, grid, is_best, is_found, is_ordered,
    lemma_one_found, squeeze, tensor_cells, tensor_dims, tensor_dtype, zeros,
};
use candle_core::{Device, Tensor};
use vstd::prelude::*;

verus! {

/// That `t` holds for each row of logits a code that none of the row exceeds, as far
/// as the row can be compared and its codes fit the numbers of `t`. On the CPU it is
/// the code that is found from the left.
pub open spec fn is_greedy(logits: Grid, t: Grid) -> bool {
    &&& logits.dims.len() == 2
    &&& t.dtype == DType::U32
    &&& t.location == logits.location
    &&& t.dims == seq![logits.dims[0]]
    &&& t.cells.len() == logits.dims[0]
    &&& logits.dims[1] <= u32::MAX && logits.location is Cpu ==> forall|i: int|
        0 <= i < logits.dims[0] ==> is_found(
            logits.cells,
            logits.dims[1] as int,
            i,
            #[trigger] t.cells[i],
        )
    &&& logits.dims[1] <= u32::MAX ==> forall|i: int|
        0 <= i < logits.dims[0] && is_ordered(logits.cells, logits.dims[1] as int, i) ==> is_best(
            logits.cells,
            logits.dims[1] as int,
            i,
            #[trigger] t.cells[i],
        )
}

/// On the CPU the same logits give the same codes.
pub proof fn lemma_one_choice(logits: Grid, t: Grid, u: Grid)
    requires
        is_greedy(logits, t),
        is_greedy(logits, u),
        logits.location is Cpu,
        logits.dims[1] <= u32::MAX,
    ensures
        t.cells == u.cells,
{
    assert forall|i: int| 0 <= i < t.cells.len() implies t.cells[i] == u.cells[i] by {
        lemma_one_found(logits.cells, logits.dims[1] as int, i, t.cells[i], u.cells[i]);
    }
    assert(t.cells =~= u.cells);
}

/// Whether logits are such that codes can be chosen on the CPU.
pub open spec fn chooses_on_cpu(logits: Grid, n: int) -> bool {
    &&& logits.at_hand()
    &&& logits.dtype == DType::F32
    &&& logits.dims.len() == 2
    &&& logits.dims[0] >= n
    &&& logits.dims[1] > 0
}

/// The most likely code of each of `n` sequences, as a tensor and as numbers.
pub fn choose_codes(logits: &Tensor, n: usize) -> (r: Result<(Tensor, Vec<u32>), TtsError>)
    requires
        n > 0,
    ensures
        r matches Ok((t, ids)) ==> {
            &&& is_greedy(grid(*logits), grid(t))
            &&& tensor_cells(t) == cells_of(ids@)
            &&& ids@.len() >= n
        },
        r matches Err(e) ==> e.is_computing() || e is BadShape || e is BadBatch,
        chooses_on_cpu(grid(*logits), n as int) ==> r is Ok,
{
    let d = match sized(logits) {
        Ok(d) => d,
        Err(e) => {
            return Err(e);
        },
    };
    let is_float = match dtype(logits) {
        DType::F32 => true,
        _ => false,
    };
    if d.len() != 2 || !is_float {
        return Err(TtsError::BadShape);
    }
    if d[0] < n {
        return Err(TtsError::BadBatch);
    }
    if d[1] == 0 {
        return Err(TtsError::BadShape);
    }
    proof {
        lemma_last(d@);
    }
    let chosen = if d[1] == 1 {
        let rows: Vec<usize> = vec![d[0]];
        assert(rows@ =~= seq![d@[0]]);
        proof {
            lemma_shape1(d@[0]);
        }
        zeros(&rows, DType::U32, &device_of(logits))
    } else {
        argmax(logits)
    };
    let t = match chosen {
        Ok(t) => t,
        Err(e) => {
            return Err(TtsError::Tensor(e));
        },
    };
    match numbers(&t) {
        Ok(ids) => {
            assert(ids@.len() == cells_of(ids@).len());
            Ok((t, ids))
        },
        Err(e) => Err(e),
    }
}

/// The first axis of a countable shape with two axes is countable.
proof fn lemma_last(d: Seq<usize>)
    requires
        d.len() == 2,
        countable(d),
    ensures
        countable(seq![d[0]]),
{
    assert(d.drop_last() =~= seq![d[0]]);
    lemma_shape1(d[0]);
    let s = span(seq![d[0]]);
    lemma_span(seq![d[0]]);
    let k: nat = if d[1] == 0 {
        1
    } else {
        d[1] as nat
    };
    assert(span(d) == s * k);
    assert(s * k >= s) by (nonlinear_arith)
        requires
            k >= 1,
    ;
}

/// The number at one position of a line of numbers.
pub open spec fn at_position(line: Grid, i: usize) -> Grid {
    line.narrow(0, i, 1).squeeze(0)
}

/// A single number of a line.
pub proof fn lemma_at_position(line: Grid, i: usize)
    requires
        line.dims.len() == 1,
        line.cells.len() == line.dims[0],
        i < line.dims[0],
    ensures
        at_position(line, i).cells == seq![line.cells[i as int]],
        at_position(line, i).dims.len() == 0,
        at_position(line, i).dtype == line.dtype,
        at_position(line, i).location == line.location,
{
    let n = line.dims[0] as nat;
    assert(line.dims.take(0).len() == 0);
    assert(line.dims.skip(1).len() == 0);
    let inner = crate::grid::inner(line.dims, 0);
    assert(inner == 1);
    assert(crate::grid::outer(line.dims, 0) == 1);
    assert(n * inner == n) by (nonlinear_arith)
        requires
            inner == 1,
    ;
    assert(i as nat * inner == i) by (nonlinear_arith)
        requires
            inner == 1,
    ;
    assert(1 * inner == 1) by (nonlinear_arith)
        requires
            inner == 1,
    ;
    assert(0 * n == 0);
    assert(pick(line.cells, n, i as nat, 1, 0) =~= Seq::<int>::empty());
    assert(pick(line.cells, n, i as nat, 1, 1) =~= seq![line.cells[i as int]]);
    assert(line.narrow(0, i, 1).dims =~= seq![1usize]);
}

/// The numbers of a line, one by one.
pub fn each_of(line: &Tensor, n: usize) -> (r: Result<Vec<Tensor>, TtsError>)
    ensures
        r matches Ok(v) ==> v@.len() == n && forall|i: int|
            0 <= i < n ==> grid(#[trigger] v@[i]) == at_position(grid(*line), i as usize),
        r matches Err(e) ==> e.is_computing(),
        tensor_dims(*line).len() > 0 && tensor_dims(*line)[0] >= n ==> r is Ok,
{
    let mut out: Vec<Tensor> = Vec::new();
    let mut i: usize = 0;
    while i < n
        invariant
            i <= n,
            out@.len() == i,
            forall|j: int|
                0 <= j < i ==> grid(#[trigger] out@[j]) == at_position(grid(*line), j as usize),
        decreases n - i,
    {
        let one = match part(line, 0, i, 1) {
            Ok(t) => t,
            Err(e) => {
                return Err(e);
            },
        };
        match squeeze(&one, 0) {
            Ok(t) => {
                out.push(t);
            },
            Err(e) => {
                return Err(TtsError::Tensor(e));
            },
        }
        i = i + 1;
    }
    Ok(out)
}

/// The first `n` rows of a tensor.
pub fn rows_of(t: &Tensor, n: usize) -> (r: Result<Vec<Tensor>, TtsError>)
    ensures
        r matches Ok(v) ==> v@.len() == n && forall|i: int|
            0 <= i < n ==> grid(#[trigger] v@[i]) == grid(*t).narrow(0, i as usize, 1),
        r matches Err(e) ==> e.is_computing(),
        tensor_dims(*t).len() > 0 && tensor_dims(*t)[0] >= n ==> r is Ok,
{
    let mut out: Vec<Tensor> = Vec::new();
    let mut i: usize = 0;
    while i < n
        invariant
            i <= n,
            out@.len() == i,
            forall|j: int|
                0 <= j < i ==> grid(#[trigger] out@[j]) == grid(*t).narrow(0, j as usize, 1),
        decreases n - i,
    {
        match part(t, 0, i, 1) {
            Ok(row) => {
                out.push(row);
            },
            Err(e) => {
                return Err(e);
            },
        }
        i = i + 1;
    }
    Ok(out)
}

/// The frames of each sequence.
pub open spec fn all_values(codes: Seq<FrameCodes>) -> Seq<Seq<Seq<u32>>> {
    codes.map_values(|c: FrameCodes| values(c@))
}

/// The frames of each sequence, with one more for each active sequence.
pub open spec fn with_frames(
    codes: Seq<Seq<Seq<u32>>>,
    active: Seq<usize>,
    rows: Seq<Seq<u32>>,
) -> Seq<Seq<Seq<u32>>>
    decreases active.len(),
{
    if active.len() == 0 || rows.len() == 0 {
        codes
    } else {
        let before = with_frames(codes, active.drop_last(), rows.drop_last());
        before.update(active.last() as int, before[active.last() as int].push(rows.last()))
    }
}

/// Whether positions are in order and within `n`.
pub open spec fn in_order(active: Seq<usize>, n: int) -> bool {
    &&& forall|k: int| 0 <= k < active.len() ==> #[trigger] active[k] < n
    &&& forall|j: int, k: int|
        0 <= j < k < active.len() ==> #[trigger] active[j] < #[trigger] active[k]
}

/// The active sequences are in order.
pub proof fn lemma_in_order(done: Seq<bool>, active: Seq<usize>)
    requires
        indices(active) == actives(done),
    ensures
        in_order(active, done.len() as int),
{
    lemma_actives(done);
    assert(indices(active).len() == active.len());
    assert forall|k: int| 0 <= k < active.len() implies #[trigger] active[k] < done.len() by {
        assert(indices(active)[k] == active[k]);
    }
    assert forall|j: int, k: int| 0 <= j < k < active.len() implies #[trigger] active[j]
        < #[trigger] active[k] by {
        assert(indices(active)[j] == active[j]);
        assert(indices(active)[k] == active[k]);
    }
}

/// Each active sequence gets its own frame, and the others stay as they are.
pub proof fn lemma_with_frames(
    codes: Seq<Seq<Seq<u32>>>,
    active: Seq<usize>,
    rows: Seq<Seq<u32>>,
)
    requires
        active.len() == rows.len(),
        in_order(active, codes.len() as int),
    ensures
        with_frames(codes, active, rows).len() == codes.len(),
        forall|k: int|
            0 <= k < active.len() ==> with_frames(codes, active, rows)[(
            #[trigger] active[k]) as int] == codes[active[k] as int].push(rows[k]),
        forall|i: int|
            0 <= i < codes.len() && (forall|k: int| 0 <= k < active.len() ==> active[k] != i)
                ==> #[trigger] with_frames(codes, active, rows)[i] == codes[i],
    decreases active.len(),
{
    if active.len() > 0 {
        let init = active.drop_last();
        let n = active.len() - 1;
        assert(in_order(init, codes.len() as int)) by {
            assert forall|k: int| 0 <= k < init.len() implies #[trigger] init[k] < codes.len() by {
                assert(init[k] == active[k]);
            }
            assert forall|j: int, k: int| 0 <= j < k < init.len() implies #[trigger] init[j]
                < #[trigger] init[k] by {
                assert(init[j] == active[j]);
                assert(init[k] == active[k]);
            }
        }
        lemma_with_frames(codes, init, rows.drop_last());
        let before = with_frames(codes, init, rows.drop_last());
        let last = active[n] as int;
        assert forall|k: int| 0 <= k < init.len() implies init[k] != last by {
            assert(init[k] == active[k]);
            assert(active[k] < active[n]);
        }
        assert(before[last] == codes[last]);
        assert forall|k: int| 0 <= k < active.len() implies with_frames(codes, active, rows)[(
        #[trigger] active[k]) as int] == codes[active[k] as int].push(rows[k]) by {
            if k < n {
                assert(init[k] == active[k]);
                assert(active[k] < active[n]);
            }
        }
        assert forall|i: int|
            0 <= i < codes.len() && (forall|k: int| 0 <= k < active.len() ==> active[k]
                != i) implies #[trigger] with_frames(codes, active, rows)[i] == codes[i] by {
            assert(active[n] != i);
            assert forall|k: int| 0 <= k < init.len() implies init[k] != i by {
                assert(init[k] == active[k]);
            }
        }
    }
}

/// Whether no sequence has more than `n` frames.
pub open spec fn at_most(codes: Seq<Seq<Seq<u32>>>, n: int) -> bool {
    forall|i: int| 0 <= i < codes.len() ==> (#[trigger] codes[i]).len() <= n
}

/// Whether each sequence has no more frames than it may have.
pub open spec fn within(codes: Seq<Seq<Seq<u32>>>, limits: Seq<usize>) -> bool {
    &&& codes.len() == limits.len()
    &&& forall|i: int| 0 <= i < codes.len() ==> (#[trigger] codes[i]).len() <= limits[i]
}

/// Whether each sequence that has not ended may have so many frames.
pub open spec fn allows(limits: Seq<usize>, done: Seq<bool>, frames: int) -> bool {
    &&& limits.len() == done.len()
    &&& forall|i: int| 0 <= i < done.len() && !#[trigger] done[i] ==> frames <= limits[i]
}

/// One frame more for each active sequence stays within what each may have.
pub proof fn lemma_stay_within(
    codes: Seq<Seq<Seq<u32>>>,
    done: Seq<bool>,
    active: Seq<usize>,
    rows: Seq<Seq<u32>>,
    limits: Seq<usize>,
    n: int,
)
    requires
        active.len() == rows.len(),
        codes.len() == done.len(),
        indices(active) == actives(done),
        at_most(codes, n),
        within(codes, limits),
        allows(limits, done, n + 1),
    ensures
        within(with_frames(codes, active, rows), limits),
{
    lemma_in_order(done, active);
    lemma_with_frames(codes, active, rows);
    lemma_actives(done);
    let now = with_frames(codes, active, rows);
    assert forall|i: int| 0 <= i < now.len() implies (#[trigger] now[i]).len() <= limits[i] by {
        assert(codes[i].len() <= n);
        if exists|k: int| 0 <= k < active.len() && active[k] == i {
            let k = choose|k: int| 0 <= k < active.len() && active[k] == i;
            assert(now[active[k] as int] == codes[active[k] as int].push(rows[k]));
            assert(indices(active)[k] == i);
            assert(!done[i]);
        }
    }
}

/// One frame more for each active sequence is at most one frame more.
pub proof fn lemma_one_more(
    codes: Seq<Seq<Seq<u32>>>,
    active: Seq<usize>,
    rows: Seq<Seq<u32>>,
    n: int,
)
    requires
        active.len() == rows.len(),
        in_order(active, codes.len() as int),
        at_most(codes, n),
    ensures
        at_most(with_frames(codes, active, rows), n + 1),
        with_frames(codes, active, rows).len() == codes.len(),
{
    lemma_with_frames(codes, active, rows);
    let now = with_frames(codes, active, rows);
    assert forall|i: int| 0 <= i < now.len() implies (#[trigger] now[i]).len() <= n + 1 by {
        assert(codes[i].len() <= n);
        if exists|k: int| 0 <= k < active.len() && active[k] == i {
            let k = choose|k: int| 0 <= k < active.len() && active[k] == i;
            assert(now[active[k] as int] == codes[active[k] as int].push(rows[k]));
        }
    }
}

/// Append a frame to each active sequence.
pub fn append_frames(codes: &mut Vec<FrameCodes>, active: &Vec<usize>, rows: &FrameCodes)
    requires
        active@.len() == rows@.len(),
        forall|k: int| 0 <= k < active@.len() ==> #[trigger] active@[k] < old(codes)@.len(),
    ensures
        all_values(final(codes)@) == with_frames(all_values(old(codes)@), active@, values(rows@)),
{
    let n = codes.len();
    let ghost start = all_values(codes@);
    let ghost vals = values(rows@);
    let mut k: usize = 0;
    assert(active@.take(0).len() == 0);
    while k < active.len()
        invariant
            k <= active@.len(),
            active@.len() == rows@.len(),
            vals == values(rows@),
            n == codes@.len(),
            forall|j: int| 0 <= j < active@.len() ==> #[trigger] active@[j] < n,
            all_values(codes@) == with_frames(start, active@.take(k as int), vals.take(k as int)),
        decreases active@.len() - k,
    {
        let a = active[k];
        let ghost before = codes@;
        let frame = crate::codes::copy_frame(&rows[k]);
        codes[a].push(frame);
        proof {
            assert(values(codes@[a as int]@) =~= values(before[a as int]@).push(vals[k as int]));
            assert(all_values(codes@) =~= all_values(before).update(
                a as int,
                all_values(before)[a as int].push(vals[k as int]),
            ));
            assert(active@.take(k + 1).drop_last() =~= active@.take(k as int));
            assert(vals.take(k + 1).drop_last() =~= vals.take(k as int));
            assert(active@.take(k + 1).last() == a);
            assert(vals.take(k + 1).last() == vals[k as int]);
        }
        k = k + 1;
    }
    assert(active@.take(active@.len() as int) =~= active@);
    assert(vals.take(rows@.len() as int) =~= vals);
}

/// Which sequences have no frames.
pub open spec fn empties(codes: Seq<Seq<Seq<u32>>>) -> Seq<bool> {
    codes.map_values(|c: Seq<Seq<u32>>| c.len() == 0)
}

/// The sequences that have frames, in order.
pub fn non_empty(codes: &Vec<FrameCodes>) -> (r: Vec<usize>)
    ensures
        indices(r@) == actives(empties(all_values(codes@))),
{
    let mut none: Vec<bool> = Vec::new();
    let mut i: usize = 0;
    while i < codes.len()
        invariant
            i <= codes@.len(),
            none@.len() == i,
            forall|j: int| 0 <= j < i ==> #[trigger] none@[j] == (codes@[j]@.len() == 0),
        decreases codes@.len() - i,
    {
        none.push(codes[i].len() == 0);
        i = i + 1;
    }
    assert(none@ =~= empties(all_values(codes@)));
    active_of(&none)
}

/// The frames of the sequences at these positions.
pub open spec fn chosen(codes: Seq<Seq<Seq<u32>>>, order: Seq<usize>) -> Seq<Seq<Seq<u32>>> {
    Seq::new(order.len(), |k: int| codes[order[k] as int])
}

/// The greatest number of frames.
pub open spec fn most_frames(items: Seq<Seq<Seq<u32>>>) -> nat
    decreases items.len(),
{
    if items.len() == 0 {
        0
    } else {
        let before = most_frames(items.drop_last());
        if items.last().len() > before {
            items.last().len()
        } else {
            before
        }
    }
}

/// The greatest number of frames of the sequences at these positions.
pub fn longest_codes(codes: &Vec<FrameCodes>, order: &Vec<usize>) -> (r: usize)
    requires
        forall|k: int| 0 <= k < order@.len() ==> #[trigger] order@[k] < codes@.len(),
    ensures
        r == most_frames(chosen(all_values(codes@), order@)),
{
    let ghost items = chosen(all_values(codes@), order@);
    let mut most: usize = 0;
    let mut k: usize = 0;
    while k < order.len()
        invariant
            k <= order@.len(),
            forall|j: int| 0 <= j < order@.len() ==> #[trigger] order@[j] < codes@.len(),
            items == chosen(all_values(codes@), order@),
            most == most_frames(items.take(k as int)),
        decreases order@.len() - k,
    {
        let n = codes[order[k]].len();
        proof {
            assert(items.take(k + 1).drop_last() =~= items.take(k as int));
            assert(items.take(k + 1).last() == items[k as int]);
            assert(items[k as int].len() == n);
        }
        if n > most {
            most = n;
        }
        k = k + 1;
    }
    assert(items.take(order@.len() as int) =~= items);
    most
}

/// Planes have so many cells.
pub proof fn lemma_planes_len(items: Seq<Seq<Seq<u32>>>, frames: nat)
    ensures
        planes(items, frames).len() == items.len() * (CODEBOOKS * frames),
    decreases items.len(),
{
    if items.len() > 0 {
        lemma_planes_len(items.drop_last(), frames);
        let n = items.len() - 1;
        assert((n + 1) * (CODEBOOKS * frames) == n * (CODEBOOKS * frames) + CODEBOOKS * frames)
            by (nonlinear_arith);
    } else {
        assert(0 * (CODEBOOKS * frames) == 0) by (nonlinear_arith);
    }
}

/// The contents of the tensor that several sequences of frames give, each filled
/// up with zeros.
pub open spec fn batch_grid(items: Seq<Seq<Seq<u32>>>, frames: usize, location: Location) -> Grid {
    Grid {
        dtype: DType::I64,
        location,
        dims: seq![items.len() as usize, CODEBOOKS, frames],
        cells: planes(items, frames as nat),
    }
}

/// Convert the sequences at these positions into a tensor `[N, 16, frames]`.
pub fn batch_tensor(codes: &Vec<FrameCodes>, order: &Vec<usize>, frames: usize, device: &Device) -> (r:
    Result<Tensor, TtsError>)
    requires
        forall|k: int| 0 <= k < order@.len() ==> #[trigger] order@[k] < codes@.len(),
    ensures
        r matches Ok(t) ==> grid(t) == batch_grid(
            chosen(all_values(codes@), order@),
            frames,
            device_location(*device),
        ),
        r matches Err(e) ==> e.is_computing(),
        device_location(*device) is Cpu && countable(
            seq![order@.len() as usize, CODEBOOKS, frames],
        ) && CODEBOOKS * frames <= usize::MAX ==> r is Ok,
{
    let m = order.len();
    let shape: Vec<usize> = vec![m, CODEBOOKS, frames];
    assert(shape@ =~= seq![m, CODEBOOKS, frames]);
    if !is_countable(&shape) || frames > usize::MAX / CODEBOOKS {
        return Err(TtsError::Overflow);
    }
    let ghost items = chosen(all_values(codes@), order@);
    let mut data: Vec<i64> = Vec::new();
    let mut k: usize = 0;
    assert(signed_cells(data@) =~= planes(items.take(0), frames as nat));
    while k < m
        invariant
            k <= m,
            m == order@.len(),
            frames <= usize::MAX / CODEBOOKS,
            forall|j: int| 0 <= j < order@.len() ==> #[trigger] order@[j] < codes@.len(),
            items == chosen(all_values(codes@), order@),
            signed_cells(data@) == planes(items.take(k as int), frames as nat),
        decreases m - k,
    {
        let item = &codes[order[k]];
        push_plane(&mut data, item.as_slice(), frames);
        proof {
            assert(items.take(k + 1).drop_last() =~= items.take(k as int));
            assert(items.take(k + 1).last() == items[k as int]);
            assert(items[k as int] == values(item@));
        }
        k = k + 1;
    }
    proof {
        assert(items.take(m as int) =~= items);
        lemma_planes_len(items, frames as nat);
        lemma_shape3(m, CODEBOOKS, frames);
        assert(data@.len() == signed_cells(data@).len());
        assert(m * (CODEBOOKS * frames) == m * CODEBOOKS * frames) by (nonlinear_arith);
        assert(data@.map_values(|v: i64| v as int) =~= signed_cells(data@));
    }
    match from_i64(data, &shape, device) {
        Ok(t) => Ok(t),
        Err(e) => Err(TtsError::Tensor(e)),
    }
}

/// An axis that is cut to one position makes the span no greater.
proof fn lemma_span_one(dims: Seq<usize>, axis: int)
    requires
        0 <= axis < dims.len(),
    ensures
        span(dims.update(axis, 1)) <= span(dims),
    decreases dims.len(),
{
    let cut = dims.update(axis, 1);
    lemma_span(dims.drop_last());
    if axis == dims.len() - 1 {
        assert(cut.drop_last() =~= dims.drop_last());
        let s = span(dims.drop_last());
        let k: nat = if dims.last() == 0 {
            1
        } else {
            dims.last() as nat
        };
        assert(cut.last() == 1);
        assert(span(cut) == s * 1);
        assert(s * 1 <= s * k) by (nonlinear_arith)
            requires
                k >= 1,
        ;
    } else {
        assert(cut.drop_last() =~= dims.drop_last().update(axis, 1));
        lemma_span_one(dims.drop_last(), axis);
        let a = span(cut.drop_last());
        let s = span(dims.drop_last());
        let k: nat = if dims.last() == 0 {
            1
        } else {
            dims.last() as nat
        };
        assert(cut.last() == dims.last());
        assert(a * k <= s * k) by (nonlinear_arith)
            requires
                a <= s,
        ;
    }
}

/// The waveform of one sequence of a batch, on one axis.
pub open spec fn wave_of(waveform: Grid, b: usize) -> Grid {
    waveform.narrow(0, b, 1).squeeze(0).flatten()
}

/// How many samples of a sequence are not padding: so many for each frame, but
/// not more than there are.
pub open spec fn kept_samples(frames: int, samples: int) -> int {
    min_of(frames * SAMPLES_PER_FRAME, samples)
}

/// The waveform of one sequence of a batch without what padding gave.
pub fn trimmed(waveform: &Tensor, b: usize, frames: usize) -> (r: Result<Tensor, TtsError>)
    ensures
        r matches Ok(t) ==> {
            let wave = wave_of(grid(*waveform), b);
            &&& grid(*waveform).has_range(0, b, 1)
            &&& grid(t) == wave.narrow(
                0,
                0,
                kept_samples(frames as int, wave.dims[0] as int) as usize,
            )
        },
        r matches Err(e) ==> e.is_computing(),
        grid(*waveform).at_hand() && tensor_dtype(*waveform) != DType::Other && grid(
            *waveform,
        ).has_range(0, b, 1) ==> r is Ok,
{
    let one = match part(waveform, 0, b, 1) {
        Ok(t) => t,
        Err(e) => {
            return Err(e);
        },
    };
    let row = match squeeze(&one, 0) {
        Ok(t) => t,
        Err(e) => {
            return Err(TtsError::Tensor(e));
        },
    };
    proof {
        if grid(*waveform).at_hand() {
            lemma_span_one(tensor_dims(*waveform), 0);
            lemma_span_without(tensor_dims(one), 0);
        }
    }
    let wave = match flat(&row) {
        Ok(t) => t,
        Err(e) => {
            return Err(e);
        },
    };
    let d = dims(&wave);
    let len = d[0];
    let keep: usize = match frames.checked_mul(SAMPLES_PER_FRAME) {
        Some(n) => if n < len {
            n
        } else {
            len
        },
        None => len,
    };
    part(&wave, 0, 0, keep)
}

} // verus!
