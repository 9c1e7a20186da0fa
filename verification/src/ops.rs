//! Tensor operations that refuse what they cannot do.
use crate::error::TtsError;
use crate::grid::{axis_total, cells_of, countable, join_all, joinable, span, stack_all, volume, DType, Grid};
use crate::tensor::{
    all_readable, cat, convert, copy, device_of, dims, dtype, flatten, grid, grids, is_converted,
    is_sum, narrow, plus, readable, reshape, stack, stackable, tensor_cells, tensor_dims,
    tensor_dtype, tensor_location, to_u32, zeros,
};
use candle_core::Tensor;
use vstd::prelude::*;

verus! {

/// A product of sizes is at least one, and at least the volume.
pub proof fn lemma_span(dims: Seq<usize>)
    ensures
        span(dims) >= 1,
        volume(dims) <= span(dims),
    decreases dims.len(),
{
    if dims.len() > 0 {
        lemma_span(dims.drop_last());
        let s = span(dims.drop_last());
        let v = volume(dims.drop_last());
        let d = dims.last() as nat;
        if d > 0 {
            assert(s * d >= 1) by (nonlinear_arith)
                requires
                    s >= 1,
                    d >= 1,
            ;
            assert(v * d <= s * d) by (nonlinear_arith)
                requires
                    v <= s,
            ;
        } else {
            assert(v * d == 0) by (nonlinear_arith)
                requires
                    d == 0,
            ;
        }
    }
}

/// A longer list of sizes has no lesser product.
proof fn lemma_span_grows(dims: Seq<usize>, n: int)
    requires
        0 <= n <= dims.len(),
    ensures
        span(dims.take(n)) <= span(dims),
    decreases dims.len() - n,
{
    if n == dims.len() {
        assert(dims.take(n) =~= dims);
    } else {
        lemma_span_grows(dims, n + 1);
        assert(dims.take(n + 1).drop_last() =~= dims.take(n));
        lemma_span(dims.take(n));
        let s = span(dims.take(n));
        let d = dims[n] as nat;
        if d > 0 {
            assert(s <= s * d) by (nonlinear_arith)
                requires
                    s >= 1,
                    d >= 1,
            ;
        }
    }
}

/// Whether memory can be asked for as many cells as these sizes give.
pub fn is_countable(dims: &Vec<usize>) -> (r: bool)
    ensures
        r == countable(dims@),
{
    let n = dims.len();
    let mut total: usize = 1;
    let mut i: usize = 0;
    assert(dims@.take(0).len() == 0);
    while i < n
        invariant
            n == dims@.len(),
            i <= n,
            total == span(dims@.take(i as int)),
        decreases n - i,
    {
        proof {
            assert(dims@.take(i + 1).drop_last() =~= dims@.take(i as int));
            lemma_span_grows(dims@, i + 1);
        }
        if dims[i] != 0 {
            match total.checked_mul(dims[i]) {
                Some(t) => {
                    total = t;
                },
                None => {
                    return false;
                },
            }
        }
        i = i + 1;
    }
    assert(dims@.take(n as int) =~= dims@);
    total <= usize::MAX / 16
}

/// The dimension sizes of a tensor whose cells can be counted.
pub fn sized(t: &Tensor) -> (r: Result<Vec<usize>, TtsError>)
    ensures
        match r {
            Ok(d) => d@ == tensor_dims(*t) && countable(d@),
            Err(e) => e is Overflow && !countable(tensor_dims(*t)),
        },
        volume(tensor_dims(*t)) == tensor_cells(*t).len(),
{
    let d = dims(t);
    if is_countable(&d) {
        Ok(d)
    } else {
        Err(TtsError::Overflow)
    }
}

/// Whether a tensor has cells.
pub fn has_cells(t: &Tensor) -> (r: bool)
    ensures
        r == (tensor_cells(*t).len() > 0),
{
    let d = dims(t);
    let n = d.len();
    let mut i: usize = 0;
    while i < n
        invariant
            n == d@.len(),
            d@ == tensor_dims(*t),
            volume(d@) == tensor_cells(*t).len(),
            i <= n,
            volume(d@.take(i as int)) > 0,
        decreases n - i,
    {
        proof {
            assert(d@.take(i + 1).drop_last() =~= d@.take(i as int));
        }
        if d[i] == 0 {
            proof {
                lemma_no_cells(d@, i as int);
            }
            return false;
        }
        assert(volume(d@.take(i as int)) * d@[i as int] as nat > 0) by (nonlinear_arith)
            requires
                volume(d@.take(i as int)) > 0,
                d@[i as int] > 0,
        ;
        i = i + 1;
    }
    assert(d@.take(n as int) =~= d@);
    true
}

/// An empty axis leaves no cells.
proof fn lemma_no_cells(dims: Seq<usize>, axis: int)
    requires
        0 <= axis < dims.len(),
        dims[axis] == 0,
    ensures
        volume(dims) == 0,
    decreases dims.len(),
{
    if axis < dims.len() - 1 {
        lemma_no_cells(dims.drop_last(), axis);
    }
    let v = volume(dims.drop_last());
    let d = dims.last() as nat;
    assert(v * d == 0) by (nonlinear_arith)
        requires
            v == 0 || d == 0,
    ;
}

/// A tensor with the same contents that is readable.
fn grounded(t: &Tensor) -> (r: Result<Tensor, TtsError>)
    requires
        countable(tensor_dims(*t)),
    ensures
        r matches Ok(n) ==> grid(n) == grid(*t) && readable(n),
        r matches Err(e) ==> e.is_computing(),
        tensor_location(*t) is Cpu && tensor_dtype(*t) != DType::Other ==> r is Ok,
{
    if has_cells(t) {
        return Ok(copy(t));
    }
    let kind = dtype(t);
    match kind {
        DType::Other => {
            return Err(TtsError::Unsupported);
        },
        _ => {},
    }
    match empty_like(t, kind) {
        Ok(n) => Ok(n),
        Err(e) => Err(e),
    }
}

/// A tensor without cells in the place of another one.
fn empty_like(t: &Tensor, kind: DType) -> (r: Result<Tensor, TtsError>)
    requires
        countable(tensor_dims(*t)),
        tensor_cells(*t).len() == 0,
        kind != DType::Other,
    ensures
        r matches Ok(n) ==> grid(n) == (Grid { dtype: kind, ..grid(*t) }) && readable(n),
        r matches Err(e) ==> e is Tensor,
        tensor_location(*t) is Cpu ==> r is Ok,
{
    let d = dims(t);
    match zeros(&d, kind, &device_of(t)) {
        Ok(n) => {
            assert(tensor_cells(n) =~= tensor_cells(*t));
            Ok(n)
        },
        Err(e) => Err(TtsError::Tensor(e)),
    }
}

/// Tensors with the same contents that are readable.
fn all_grounded(ts: &Vec<Tensor>) -> (r: Result<Vec<Tensor>, TtsError>)
    ensures
        r matches Ok(ns) ==> grids(ns@) == grids(ts@) && all_readable(ns@) && ns@.len() == ts@.len(),
        r matches Err(e) ==> e.is_computing(),
        (forall|i: int|
            0 <= i < ts@.len() ==> grid(#[trigger] ts@[i]).at_hand() && tensor_dtype(ts@[i])
                != DType::Other) ==> r is Ok,
{
    let mut ns: Vec<Tensor> = Vec::new();
    let mut i: usize = 0;
    while i < ts.len()
        invariant
            i <= ts@.len(),
            ns@.len() == i,
            forall|j: int| 0 <= j < i ==> grid(#[trigger] ns@[j]) == grid(ts@[j]),
            all_readable(ns@),
        decreases ts@.len() - i,
    {
        match sized(&ts[i]) {
            Ok(_) => {},
            Err(e) => {
                return Err(e);
            },
        }
        match grounded(&ts[i]) {
            Ok(n) => {
                ns.push(n);
            },
            Err(e) => {
                return Err(e);
            },
        }
        i = i + 1;
    }
    assert(grids(ns@) =~= grids(ts@));
    Ok(ns)
}

/// The cells of a tensor on one axis.
pub fn flat(t: &Tensor) -> (r: Result<Tensor, TtsError>)
    ensures
        r matches Err(e) ==> e.is_computing(),
        r matches Ok(n) ==> grid(n) == grid(*t).flatten(),
        grid(*t).at_hand() && tensor_dtype(*t) != DType::Other ==> r is Ok,
        r matches Ok(n) ==> countable(tensor_dims(n)),
        tensor_cells(*t).len() == volume(tensor_dims(*t)),
{
    match sized(t) {
        Ok(_) => match flatten(t) {
            Ok(n) => {
                proof {
                    lemma_span(tensor_dims(*t));
                    reveal_with_fuel(span, 2);
                }
                Ok(n)
            },
            Err(e) => Err(TtsError::Tensor(e)),
        },
        Err(e) => Err(e),
    }
}

/// The numbers that a tensor holds, in row-major order.
pub fn numbers(t: &Tensor) -> (r: Result<Vec<u32>, TtsError>)
    ensures
        r matches Err(e) ==> e.is_computing(),
        r matches Ok(v) ==> tensor_dtype(*t) == DType::U32 && tensor_cells(*t) == cells_of(v@),
        grid(*t).at_hand() && tensor_dtype(*t) == DType::U32 ==> r is Ok,
{
    let n = match flat(t) {
        Ok(n) => n,
        Err(e) => {
            return Err(e);
        },
    };
    if !has_cells(t) {
        return match dtype(t) {
            DType::U32 => {
                let none: Vec<u32> = Vec::new();
                assert(tensor_cells(*t) =~= cells_of(none@));
                Ok(none)
            },
            _ => Err(TtsError::Unsupported),
        };
    }
    match to_u32(&n) {
        Ok(v) => Ok(v),
        Err(e) => Err(TtsError::Tensor(e)),
    }
}

/// The part of a tensor where one axis runs over `start..start + len`.
pub fn part(t: &Tensor, axis: usize, start: usize, len: usize) -> (r: Result<Tensor, TtsError>)
    ensures
        r matches Err(e) ==> e.is_computing(),
        r is Ok <==> grid(*t).has_range(axis as int, start, len),
        r matches Ok(n) ==> grid(n) == grid(*t).narrow(axis as int, start, len),
{
    if len > usize::MAX - start {
        return Err(TtsError::Overflow);
    }
    match narrow(t, axis, start, len) {
        Ok(n) => Ok(n),
        Err(e) => Err(TtsError::Tensor(e)),
    }
}

/// A tensor under other dimension sizes.
pub fn shaped(t: &Tensor, to: &Vec<usize>) -> (r: Result<Tensor, TtsError>)
    ensures
        r matches Err(e) ==> e.is_computing(),
        r matches Ok(n) ==> grid(n) == grid(*t).reshape(to@) && volume(to@) == tensor_cells(*t).len(),
        grid(*t).at_hand() && tensor_dtype(*t) != DType::Other && countable(to@) && volume(to@)
            == tensor_cells(*t).len() ==> r is Ok,
{
    match sized(t) {
        Ok(_) => if is_countable(to) {
            match reshape(t, to) {
                Ok(n) => Ok(n),
                Err(e) => Err(TtsError::Tensor(e)),
            }
        } else {
            Err(TtsError::Overflow)
        },
        Err(e) => Err(e),
    }
}

/// Element-wise sums of two float tensors of one shape.
pub fn sum(a: &Tensor, b: &Tensor) -> (r: Result<Tensor, TtsError>)
    ensures
        r matches Err(e) ==> e.is_computing() || e is NotFloat,
        r matches Ok(n) ==> is_sum(grid(*a), grid(*b), grid(n)) && !tensor_dtype(*a).is_integer(),
        (r matches Err(e) && e is NotFloat) <==> tensor_dtype(*a).is_integer(),
        grid(*a).at_hand() && tensor_location(*b) is Cpu && tensor_dims(*a) == tensor_dims(*b)
            && tensor_dtype(*a) == tensor_dtype(*b) && tensor_dtype(*a).is_float() ==> r is Ok,
{
    match dtype(a) {
        DType::U8 | DType::U32 | DType::I16 | DType::I32 | DType::I64 => {
            return Err(TtsError::NotFloat);
        },
        _ => {},
    }
    match sized(a) {
        Ok(_) => match plus(a, b) {
            Ok(n) => Ok(n),
            Err(e) => Err(TtsError::Tensor(e)),
        },
        Err(e) => Err(e),
    }
}

/// The cells of a tensor converted to another element type.
pub fn cast(t: &Tensor, to: DType) -> (r: Result<Tensor, TtsError>)
    requires
        to != DType::Other,
    ensures
        r matches Err(e) ==> e.is_computing(),
        r matches Ok(n) ==> is_converted(grid(*t), to, grid(n)) && countable(tensor_dims(n)),
        grid(*t).at_hand() && (tensor_dtype(*t).is_float() || tensor_dtype(*t) == DType::I64
            || tensor_dtype(*t) == DType::U32) && (to.is_float() || to == DType::I64 || to
            == DType::U32) ==> r is Ok,
{
    match sized(t) {
        Ok(_) => {},
        Err(e) => {
            return Err(e);
        },
    }
    if !has_cells(t) {
        return empty_like(t, to);
    }
    match convert(t, to) {
        Ok(n) => Ok(n),
        Err(e) => Err(TtsError::Tensor(e)),
    }
}

/// The size that an axis gets where tensors are joined along it, or `None` where
/// that is no machine number.
fn total_of(ts: &Vec<Tensor>, axis: usize) -> (r: Option<usize>)
    ensures
        match r {
            Some(n) => n == axis_total(grids(ts@), axis as int),
            None => axis_total(grids(ts@), axis as int) > usize::MAX,
        },
{
    let n = ts.len();
    let ghost all = grids(ts@);
    let mut total: usize = 0;
    let mut i: usize = 0;
    while i < n
        invariant
            n == ts@.len(),
            all == grids(ts@),
            i <= n,
            total == axis_total(all.take(i as int), axis as int),
        decreases n - i,
    {
        let d = dims(&ts[i]);
        proof {
            assert(all.take(i + 1).drop_last() =~= all.take(i as int));
            assert(all.take(i + 1).last() == grid(ts@[i as int]));
            lemma_total_grows(all, axis as int, i + 1);
        }
        if axis < d.len() {
            match total.checked_add(d[axis]) {
                Some(t) => {
                    total = t;
                },
                None => {
                    return None;
                },
            }
        }
        i = i + 1;
    }
    assert(all.take(n as int) =~= all);
    Some(total)
}

/// More parts give no lesser total.
proof fn lemma_total_grows(parts: Seq<Grid>, dim: int, n: int)
    requires
        0 <= n <= parts.len(),
    ensures
        axis_total(parts.take(n), dim) <= axis_total(parts, dim),
    decreases parts.len() - n,
{
    if n == parts.len() {
        assert(parts.take(n) =~= parts);
    } else {
        lemma_total_grows(parts, dim, n + 1);
        assert(parts.take(n + 1).drop_last() =~= parts.take(n));
    }
}

/// The size that an axis gets where two tensors are joined along it.
pub proof fn lemma_total2(a: Grid, b: Grid, dim: int)
    requires
        dim < a.dims.len(),
        dim < b.dims.len(),
    ensures
        axis_total(seq![a, b], dim) == a.dims[dim] + b.dims[dim],
{
    let both = seq![a, b];
    assert(both.drop_last() =~= seq![a]);
    assert(seq![a].drop_last() =~= Seq::<Grid>::empty());
    reveal_with_fuel(axis_total, 3);
}

/// The size that an axis gets where three tensors are joined along it.
pub proof fn lemma_total3(
    a: Grid,
    b: Grid,
    c: Grid,
    dim: int,
)
    requires
        dim < a.dims.len(),
        dim < b.dims.len(),
        dim < c.dims.len(),
    ensures
        axis_total(seq![a, b, c], dim) == a.dims[dim] + b.dims[dim] + c.dims[dim],
{
    let all = seq![a, b, c];
    assert(all.drop_last() =~= seq![a, b]);
    lemma_total2(a, b, dim);
}

/// No part is longer than all of them together.
proof fn lemma_part_in_total(parts: Seq<Grid>, dim: int, i: int)
    requires
        0 <= i < parts.len(),
        dim < parts[i].dims.len(),
    ensures
        parts[i].dims[dim] <= axis_total(parts, dim),
    decreases parts.len(),
{
    if i < parts.len() - 1 {
        assert(parts.drop_last()[i] == parts[i]);
        lemma_part_in_total(parts.drop_last(), dim, i);
    }
}

/// Greater sizes have no lesser product.
proof fn lemma_span_within(a: Seq<usize>, b: Seq<usize>)
    requires
        a.len() == b.len(),
        forall|i: int| 0 <= i < a.len() ==> #[trigger] a[i] <= b[i],
    ensures
        span(a) <= span(b),
    decreases a.len(),
{
    if a.len() > 0 {
        assert forall|i: int| 0 <= i < a.len() - 1 implies #[trigger] a.drop_last()[i]
            <= b.drop_last()[i] by {
            assert(a.drop_last()[i] == a[i]);
        }
        lemma_span_within(a.drop_last(), b.drop_last());
        assert(a[a.len() - 1] <= b[a.len() - 1]);
        let s = span(a.drop_last());
        let t = span(b.drop_last());
        let k: nat = if a.last() == 0 {
            1
        } else {
            a.last() as nat
        };
        let l: nat = if b.last() == 0 {
            1
        } else {
            b.last() as nat
        };
        assert(s * k <= t * l) by (nonlinear_arith)
            requires
                s <= t,
                k <= l,
        ;
    }
}

/// One more axis makes the product no lesser.
proof fn lemma_span_insert(dims: Seq<usize>, n: usize)
    ensures
        span(dims) <= span(dims.insert(0, n)),
    decreases dims.len(),
{
    let more = dims.insert(0, n);
    if dims.len() == 0 {
        lemma_span(more);
    } else {
        assert(more.drop_last() =~= dims.drop_last().insert(0, n));
        assert(more.last() == dims.last());
        lemma_span_insert(dims.drop_last(), n);
        let s = span(dims.drop_last());
        let t = span(more.drop_last());
        let k: nat = if dims.last() == 0 {
            1
        } else {
            dims.last() as nat
        };
        assert(s * k <= t * k) by (nonlinear_arith)
            requires
                s <= t,
        ;
    }
}

/// Whether there is room for the tensors joined along an axis.
pub open spec fn has_room(parts: Seq<Grid>, dim: int) -> bool {
    &&& axis_total(parts, dim) <= usize::MAX
    &&& parts.len() > 0 && dim < parts[0].dims.len() ==> countable(
        parts[0].dims.update(dim, axis_total(parts, dim) as usize),
    )
}

/// The tensors one after the other along an axis.
pub fn concat(ts: &Vec<Tensor>, axis: usize) -> (r: Result<Tensor, TtsError>)
    ensures
        r matches Err(e) ==> e.is_computing(),
        r matches Ok(n) ==> joinable(grids(ts@), axis as int) && grid(n) == join_all(
            grids(ts@),
            axis as int,
        ),
        has_room(grids(ts@), axis as int) && joinable(grids(ts@), axis as int) && tensor_location(
            ts@[0],
        ) is Cpu && tensor_dtype(ts@[0]) != DType::Other ==> r is Ok,
{
    let total = match total_of(ts, axis) {
        Some(n) => n,
        None => {
            return Err(TtsError::Overflow);
        },
    };
    assert(ts@.len() > 0 ==> grids(ts@)[0] == grid(ts@[0]));
    if ts.len() == 1 {
        return Ok(copy(&ts[0]));
    }
    if ts.len() > 0 {
        let mut d = dims(&ts[0]);
        if axis < d.len() {
            d.set(axis, total);
            if !is_countable(&d) {
                return Err(TtsError::Overflow);
            }
        }
    }
    proof {
        let parts = grids(ts@);
        if has_room(parts, axis as int) && joinable(parts, axis as int) {
            assert forall|i: int| 0 <= i < ts@.len() implies countable(
                tensor_dims(#[trigger] ts@[i]),
            ) && tensor_location(ts@[i]) == tensor_location(ts@[0]) && tensor_dtype(ts@[i])
                == tensor_dtype(ts@[0]) by {
                assert(parts[0].fits(parts[i], axis as int));
                lemma_part_in_total(parts, axis as int, i);
                let whole = parts[0].dims.update(axis as int, total);
                assert forall|k: int| 0 <= k < whole.len() implies #[trigger] parts[i].dims[k]
                    <= whole[k] by {}
                lemma_span_within(parts[i].dims, whole);
            }
        }
    }
    let ts = match all_grounded(ts) {
        Ok(ts) => ts,
        Err(e) => {
            return Err(e);
        },
    };
    match cat(&ts, axis) {
        Ok(n) => Ok(n),
        Err(e) => Err(TtsError::Tensor(e)),
    }
}

/// One tensor after another along an axis.
pub fn concat2(a: &Tensor, b: &Tensor, axis: usize) -> (r: Result<Tensor, TtsError>)
    ensures
        r matches Err(e) ==> e.is_computing(),
        r matches Ok(n) ==> grid(*a).fits(grid(*b), axis as int) && grid(n) == grid(*a).join(
            grid(*b),
            axis as int,
        ),
        has_room(seq![grid(*a), grid(*b)], axis as int) && grid(*a).fits(grid(*b), axis as int)
            && tensor_location(*a) is Cpu && tensor_dtype(*a) != DType::Other ==> r is Ok,
{
    let ts: Vec<Tensor> = vec![copy(a), copy(b)];
    proof {
        let gs = grids(ts@);
        assert(gs =~= seq![grid(*a), grid(*b)]);
        assert(gs[1] == grid(*b));
        assert(gs.drop_last() =~= seq![grid(*a)]);
        reveal_with_fuel(join_all, 2);
        assert(grid(*a).fits(grid(*b), axis as int) ==> joinable(gs, axis as int)) by {
            if grid(*a).fits(grid(*b), axis as int) {
                assert forall|i: int| 0 <= i < gs.len() implies gs[0].fits(#[trigger] gs[i], axis as int) by {}
            }
        }
    }
    concat(&ts, axis)
}

/// Tensors of one shape along a new first axis.
pub fn pile(ts: &Vec<Tensor>) -> (r: Result<Tensor, TtsError>)
    ensures
        r matches Err(e) ==> e.is_computing(),
        r matches Ok(n) ==> stackable(grids(ts@)) && grid(n) == stack_all(grids(ts@)),
        stackable(grids(ts@)) && countable(tensor_dims(ts@[0]).insert(0, ts@.len() as usize))
            && tensor_location(ts@[0]) is Cpu && tensor_dtype(ts@[0]) != DType::Other ==> r is Ok,
{
    if ts.len() > 0 {
        let mut d = dims(&ts[0]);
        d.insert(0, ts.len());
        if !is_countable(&d) {
            return Err(TtsError::Overflow);
        }
    }
    proof {
        let parts = grids(ts@);
        if stackable(parts) {
            lemma_span_insert(tensor_dims(ts@[0]), ts@.len() as usize);
            assert forall|i: int| 0 <= i < ts@.len() implies tensor_dims(#[trigger] ts@[i])
                == tensor_dims(ts@[0]) && tensor_location(ts@[i]) == tensor_location(ts@[0])
                && tensor_dtype(ts@[i]) == tensor_dtype(ts@[0]) by {
                assert(parts[i] == grid(ts@[i]));
                assert(parts[0] == grid(ts@[0]));
            }
        }
    }
    let ts = match all_grounded(ts) {
        Ok(ts) => ts,
        Err(e) => {
            return Err(e);
        },
    };
    match stack(&ts) {
        Ok(n) => Ok(n),
        Err(e) => Err(TtsError::Tensor(e)),
    }
}

} // verus!
