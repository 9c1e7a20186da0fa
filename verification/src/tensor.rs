//! The operations of `candle_core` that the pipeline uses, with their meaning
//! over [`Grid`](crate::grid::Grid).
//!
//! A tensor's cells count as fixed: nothing here, and no caller, uses the
//! operations of `candle_core` that write a tensor in place.
//!
//! An operation on the CPU succeeds wherever its arguments fit. On another
//! device it can fail for reasons of that device.
use crate::grid::{
    axis_total, cells_of, countable, float_greater, float_order, is_nan, join_all, joinable,
    stack_all, volume, DType, Grid, Location, ONE,
};
use candle_core::{Device, Error, Tensor};
use vstd::prelude::*;

verus! {

/// `candle_core::Tensor`: its contents are known by their names below.
#[verifier::external_type_specification]
#[verifier::external_body]
pub struct ExTensor(candle_core::Tensor);

/// `candle_core::Device`: its location is known by its name below.
#[verifier::external_type_specification]
#[verifier::external_body]
pub struct ExDevice(candle_core::Device);

/// `candle_core::Error`: carried through, never looked into.
#[verifier::external_type_specification]
#[verifier::external_body]
pub struct ExError(candle_core::Error);

/// The dimension sizes of a tensor.
pub uninterp spec fn tensor_dims(t: candle_core::Tensor) -> Seq<usize>;

/// The cells of a tensor in row-major order.
pub uninterp spec fn tensor_cells(t: candle_core::Tensor) -> Seq<int>;

/// The element type of a tensor.
pub uninterp spec fn tensor_dtype(t: candle_core::Tensor) -> DType;

/// Where a tensor lives.
pub uninterp spec fn tensor_location(t: candle_core::Tensor) -> Location;

/// Where the tensors of a device live.
pub uninterp spec fn device_location(d: candle_core::Device) -> Location;

/// Whether the view of a tensor starts within its storage. A view with cells does;
/// one without may start anywhere.
pub uninterp spec fn starts_in_storage(t: candle_core::Tensor) -> bool;

/// That `r` holds element-wise sums of `a` and `b`. How a sum of floats is
/// rounded is left open: it is not the same on every device.
pub uninterp spec fn added(dtype: DType, a: Seq<int>, b: Seq<int>, r: Seq<int>) -> bool;

/// That `r` holds the cells `a` converted from one element type to another. How
/// floats are rounded is left open.
pub uninterp spec fn converted(from: DType, to: DType, a: Seq<int>, r: Seq<int>) -> bool;

/// The contents of a tensor.
pub open spec fn grid(t: Tensor) -> Grid {
    Grid {
        dtype: tensor_dtype(t),
        location: tensor_location(t),
        dims: tensor_dims(t),
        cells: tensor_cells(t),
    }
}

/// The contents of each tensor.
pub open spec fn grids(ts: Seq<Tensor>) -> Seq<Grid> {
    ts.map_values(|t: Tensor| grid(t))
}

/// That `r` is an element-wise sum of `a` and `b`.
pub open spec fn is_sum(a: Grid, b: Grid, r: Grid) -> bool {
    &&& a.dims == b.dims
    &&& r == (Grid { cells: r.cells, ..a })
    &&& added(a.dtype, a.cells, b.cells, r.cells)
}

/// That `r` is `a` converted to the element type `to`. Cells that have that type
/// already stay, and so do signed numbers that an unsigned number can hold.
pub open spec fn is_converted(a: Grid, to: DType, r: Grid) -> bool {
    &&& r == (Grid { dtype: to, cells: r.cells, ..a })
    &&& r.cells.len() == a.cells.len()
    &&& a.cells.len() > 0 ==> converted(a.dtype, to, a.cells, r.cells)
    &&& a.dtype == to ==> r.cells == a.cells
    &&& a.dtype == DType::I64 && to == DType::U32 ==> forall|i: int|
        0 <= i < a.cells.len() && 0 <= a.cells[i] <= u32::MAX ==> #[trigger] r.cells[i]
            == a.cells[i]
}

/// `Tensor::clone`: another reference to the same tensor.
#[verifier::external_body]
pub(crate) fn copy(t: &Tensor) -> (r: Tensor)
    ensures
        r == *t,
{
    t.clone()
}

/// `Tensor::dims`: the dimension sizes, whose product is the number of cells.
#[verifier::external_body]
pub(crate) fn dims(t: &Tensor) -> (r: Vec<usize>)
    ensures
        r@ == tensor_dims(*t),
        volume(r@) == tensor_cells(*t).len(),
{
    t.dims().to_vec()
}

/// `Tensor::dtype`: the element type.
#[verifier::external_body]
pub(crate) fn dtype(t: &Tensor) -> (r: DType)
    ensures
        r == tensor_dtype(*t),
{
    match t.dtype() {
        candle_core::DType::U8 => DType::U8,
        candle_core::DType::U32 => DType::U32,
        candle_core::DType::I16 => DType::I16,
        candle_core::DType::I32 => DType::I32,
        candle_core::DType::I64 => DType::I64,
        candle_core::DType::BF16 => DType::BF16,
        candle_core::DType::F16 => DType::F16,
        candle_core::DType::F32 => DType::F32,
        candle_core::DType::F64 => DType::F64,
        candle_core::DType::F8E4M3 => DType::F8E4M3,
        _ => DType::Other,
    }
}

/// `Tensor::zeros`: a tensor of these dimension sizes whose cells are all zero, with
/// a storage of its own.
#[verifier::external_body]
pub(crate) fn zeros(dims: &Vec<usize>, dtype: DType, device: &Device) -> (r: Result<Tensor, Error>)
    requires
        countable(dims@),
        dtype != DType::Other,
    ensures
        device_location(*device) is Cpu ==> r is Ok,
        r matches Ok(t) ==> grid(t) == (Grid {
            dtype,
            location: device_location(*device),
            dims: dims@,
            cells: Seq::new(volume(dims@), |i: int| 0int),
        }) && starts_in_storage(t),
{
    let dtype = match dtype {
        DType::U8 => candle_core::DType::U8,
        DType::U32 => candle_core::DType::U32,
        DType::I16 => candle_core::DType::I16,
        DType::I32 => candle_core::DType::I32,
        DType::I64 => candle_core::DType::I64,
        DType::BF16 => candle_core::DType::BF16,
        DType::F16 => candle_core::DType::F16,
        DType::F32 => candle_core::DType::F32,
        DType::F64 => candle_core::DType::F64,
        DType::F8E4M3 | DType::Other => candle_core::DType::F8E4M3,
    };
    Tensor::zeros(dims.as_slice(), dtype, device)
}

/// `Tensor::ones`: an `F32` tensor of these dimension sizes whose cells are all one.
#[verifier::external_body]
pub(crate) fn ones(dims: &Vec<usize>, device: &Device) -> (r: Result<Tensor, Error>)
    requires
        countable(dims@),
    ensures
        device_location(*device) is Cpu ==> r is Ok,
        r matches Ok(t) ==> grid(t) == (Grid {
            dtype: DType::F32,
            location: device_location(*device),
            dims: dims@,
            cells: Seq::new(volume(dims@), |i: int| ONE as int),
        }),
{
    Tensor::ones(dims.as_slice(), candle_core::DType::F32, device)
}

/// `Tensor::new` on a slice of numbers: these cells on one axis.
#[verifier::external_body]
pub(crate) fn from_u32(values: &Vec<u32>, device: &Device) -> (r: Result<Tensor, Error>)
    ensures
        device_location(*device) is Cpu ==> r is Ok,
        r matches Ok(t) ==> grid(t) == (Grid {
            dtype: DType::U32,
            location: device_location(*device),
            dims: seq![values@.len() as usize],
            cells: cells_of(values@),
        }),
{
    Tensor::new(values.as_slice(), device)
}

/// `Tensor::from_vec` on signed numbers: these cells under these dimension sizes.
#[verifier::external_body]
pub(crate) fn from_i64(values: Vec<i64>, dims: &Vec<usize>, device: &Device) -> (r: Result<
    Tensor,
    Error,
>)
    requires
        values@.len() == volume(dims@),
        countable(dims@),
    ensures
        device_location(*device) is Cpu ==> r is Ok,
        r matches Ok(t) ==> grid(t) == (Grid {
            dtype: DType::I64,
            location: device_location(*device),
            dims: dims@,
            cells: values@.map_values(|v: i64| v as int),
        }),
{
    Tensor::from_vec(values, dims.as_slice(), device)
}

/// `Tensor::from_raw_buffer` on the bits of `F32` elements: these cells under
/// these dimension sizes.
#[verifier::external_body]
pub(crate) fn from_float_bits(bits: &Vec<u32>, dims: &Vec<usize>, device: &Device) -> (r: Result<
    Tensor,
    Error,
>)
    requires
        bits@.len() == volume(dims@),
        countable(dims@),
    ensures
        device_location(*device) is Cpu ==> r is Ok,
        r matches Ok(t) ==> grid(t) == (Grid {
            dtype: DType::F32,
            location: device_location(*device),
            dims: dims@,
            cells: cells_of(bits@),
        }),
{
    let bytes: Vec<u8> = bits.iter().flat_map(|b| b.to_ne_bytes()).collect();
    Tensor::from_raw_buffer(&bytes, candle_core::DType::F32, dims.as_slice(), device)
}

/// `Tensor::device`, used for the location of a tensor to be made beside another.
#[verifier::external_body]
pub(crate) fn device_of(t: &Tensor) -> (r: Device)
    ensures
        device_location(r) == tensor_location(*t),
{
    t.device().clone()
}

/// `Device::clone`: another reference to the same device.
#[verifier::external_body]
pub(crate) fn copy_device(d: &Device) -> (r: Device)
    ensures
        r == *d,
{
    d.clone()
}

/// `Tensor::narrow`: the part of a tensor where one axis runs over
/// `start..start + len`, or an error where that range is not on that axis.
#[verifier::external_body]
pub(crate) fn narrow(t: &Tensor, axis: usize, start: usize, len: usize) -> (r: Result<Tensor, Error>)
    requires
        start + len <= usize::MAX,
    ensures
        r is Ok <==> grid(*t).has_range(axis as int, start, len),
        r matches Ok(n) ==> grid(n) == grid(*t).narrow(axis as int, start, len),
{
    t.narrow(axis, start, len)
}

/// `Tensor::squeeze`: the tensor without that axis if its size is one, else the
/// same tensor, or an error where there is no such axis.
#[verifier::external_body]
pub(crate) fn squeeze(t: &Tensor, axis: usize) -> (r: Result<Tensor, Error>)
    ensures
        r is Ok <==> axis < tensor_dims(*t).len(),
        r matches Ok(n) ==> grid(n) == grid(*t).squeeze(axis as int),
{
    t.squeeze(axis)
}

/// `Tensor::unsqueeze`: the tensor with an axis of size one put in, or an error
/// where the position is beyond the last axis.
#[verifier::external_body]
pub(crate) fn unsqueeze(t: &Tensor, axis: usize) -> (r: Result<Tensor, Error>)
    ensures
        r is Ok <==> axis <= tensor_dims(*t).len(),
        r matches Ok(n) ==> grid(n) == grid(*t).unsqueeze(axis as int),
{
    t.unsqueeze(axis)
}

/// `Tensor::reshape`: the same cells under other dimension sizes, or an error
/// where those ask for another number of cells.
#[verifier::external_body]
pub(crate) fn reshape(t: &Tensor, dims: &Vec<usize>) -> (r: Result<Tensor, Error>)
    requires
        countable(dims@),
        countable(tensor_dims(*t)),
    ensures
        volume(dims@) != tensor_cells(*t).len() ==> r is Err,
        grid(*t).at_hand() && tensor_dtype(*t) != DType::Other && volume(dims@) == tensor_cells(
            *t,
        ).len() ==> r is Ok,
        r matches Ok(n) ==> grid(n) == grid(*t).reshape(dims@),
{
    t.reshape(dims.as_slice())
}

/// `Tensor::flatten_all`: the same cells on one axis.
#[verifier::external_body]
pub(crate) fn flatten(t: &Tensor) -> (r: Result<Tensor, Error>)
    requires
        countable(tensor_dims(*t)),
    ensures
        grid(*t).at_hand() && tensor_dtype(*t) != DType::Other ==> r is Ok,
        r matches Ok(n) ==> grid(n) == grid(*t).flatten(),
{
    t.flatten_all()
}

/// Whether a tensor has cells, or starts within its storage without them.
pub open spec fn readable(t: Tensor) -> bool {
    tensor_cells(t).len() > 0 || starts_in_storage(t)
}

/// Whether all of these tensors are readable.
pub open spec fn all_readable(ts: Seq<Tensor>) -> bool {
    forall|i: int| 0 <= i < ts.len() ==> readable(#[trigger] ts[i])
}

/// `Tensor::cat`: the tensors one after the other along an axis. There has to be
/// a tensor, and where there are several they have to agree in element type, in
/// location and in every other axis. Views that start outside of their storage are
/// left out.
#[verifier::external_body]
pub(crate) fn cat(ts: &Vec<Tensor>, axis: usize) -> (r: Result<Tensor, Error>)
    requires
        all_readable(ts@),
        axis_total(grids(ts@), axis as int) <= usize::MAX,
        ts@.len() > 0 && axis < tensor_dims(ts@[0]).len() ==> countable(
            tensor_dims(ts@[0]).update(axis as int, axis_total(grids(ts@), axis as int) as usize),
        ),
    ensures
        !joinable(grids(ts@), axis as int) ==> r is Err,
        joinable(grids(ts@), axis as int) && tensor_location(ts@[0]) is Cpu && tensor_dtype(ts@[0])
            != DType::Other ==> r is Ok,
        r matches Ok(n) ==> grid(n) == join_all(grids(ts@), axis as int),
{
    Tensor::cat(ts.as_slice(), axis)
}

/// `Tensor::stack`: tensors of one shape, element type and location along a new
/// first axis. Views that start outside of their storage are left out.
#[verifier::external_body]
pub(crate) fn stack(ts: &Vec<Tensor>) -> (r: Result<Tensor, Error>)
    requires
        all_readable(ts@),
        ts@.len() > 0 ==> countable(tensor_dims(ts@[0]).insert(0, ts@.len() as usize)),
    ensures
        !stackable(grids(ts@)) ==> r is Err,
        stackable(grids(ts@)) && tensor_location(ts@[0]) is Cpu && tensor_dtype(ts@[0])
            != DType::Other ==> r is Ok,
        r matches Ok(n) ==> grid(n) == stack_all(grids(ts@)),
{
    Tensor::stack(ts.as_slice(), 0)
}

/// Whether tensors can be stacked: they agree in all but their cells.
pub open spec fn stackable(parts: Seq<Grid>) -> bool {
    &&& parts.len() > 0
    &&& forall|i: int|
        0 <= i < parts.len() ==> (Grid { cells: parts[0].cells, ..#[trigger] parts[i] }) == parts[0]
}

/// `Tensor::to_vec1::<u32>`: the cells of a `U32` tensor with one axis. There has to
/// be a cell.
#[verifier::external_body]
pub(crate) fn to_u32(t: &Tensor) -> (r: Result<Vec<u32>, Error>)
    requires
        countable(tensor_dims(*t)),
        tensor_cells(*t).len() > 0,
    ensures
        tensor_dtype(*t) != DType::U32 || tensor_dims(*t).len() != 1 ==> r is Err,
        tensor_location(*t) is Cpu && tensor_dtype(*t) == DType::U32 && tensor_dims(*t).len() == 1
            ==> r is Ok,
        r matches Ok(v) ==> tensor_dims(*t) == seq![v@.len() as usize] && tensor_cells(*t)
            == cells_of(v@),
{
    t.to_vec1()
}

/// `Tensor::add`: element-wise sums of two float tensors of one shape.
#[verifier::external_body]
pub(crate) fn plus(a: &Tensor, b: &Tensor) -> (r: Result<Tensor, Error>)
    requires
        !tensor_dtype(*a).is_integer(),
        countable(tensor_dims(*a)),
    ensures
        tensor_dims(*a) != tensor_dims(*b) ==> r is Err,
        tensor_dims(*a) == tensor_dims(*b) && tensor_dtype(*a) == tensor_dtype(*b) && tensor_dtype(
            *a,
        ).is_float() && tensor_location(*a) is Cpu && tensor_location(*b) is Cpu ==> r is Ok,
        r matches Ok(n) ==> added(tensor_dtype(*a), tensor_cells(*a), tensor_cells(*b), tensor_cells(n)),
        r matches Ok(n) ==> is_sum(grid(*a), grid(*b), grid(n)),
{
    a.add(b)
}

/// `Tensor::to_dtype`: the cells converted to another element type. There has to be
/// a cell.
#[verifier::external_body]
pub(crate) fn convert(t: &Tensor, dtype: DType) -> (r: Result<Tensor, Error>)
    requires
        tensor_cells(*t).len() > 0,
        countable(tensor_dims(*t)),
        dtype != DType::Other,
    ensures
        tensor_dtype(*t) == dtype ==> r is Ok,
        tensor_location(*t) is Cpu && (tensor_dtype(*t).is_float() || tensor_dtype(*t)
            == DType::I64 || tensor_dtype(*t) == DType::U32) && (dtype.is_float() || dtype
            == DType::I64 || dtype == DType::U32) ==> r is Ok,
        r matches Ok(n) ==> converted(tensor_dtype(*t), dtype, tensor_cells(*t), tensor_cells(n)),
        r matches Ok(n) ==> is_converted(grid(*t), dtype, grid(n)),
{
    let dtype = match dtype {
        DType::U8 => candle_core::DType::U8,
        DType::U32 => candle_core::DType::U32,
        DType::I16 => candle_core::DType::I16,
        DType::I32 => candle_core::DType::I32,
        DType::I64 => candle_core::DType::I64,
        DType::BF16 => candle_core::DType::BF16,
        DType::F16 => candle_core::DType::F16,
        DType::F32 => candle_core::DType::F32,
        DType::F64 => candle_core::DType::F64,
        DType::F8E4M3 | DType::Other => candle_core::DType::F8E4M3,
    };
    t.to_dtype(dtype)
}

/// `Tensor::slice_assign` on two axes: the tensor with the cell at one row and
/// column replaced by the only cell of `src`.
#[verifier::external_body]
pub(crate) fn assign_cell(t: &Tensor, row: usize, col: usize, src: &Tensor) -> (r: Result<
    Tensor,
    Error,
>)
    requires
        row < usize::MAX,
        col < usize::MAX,
        countable(tensor_dims(*t)),
    ensures
        !(has_cell(grid(*t), row, col) && tensor_dims(*src) == seq![1usize, 1usize]) ==> r is Err,
        has_cell(grid(*t), row, col) && tensor_dims(*src) == seq![1usize, 1usize] && tensor_dtype(
            *t,
        ) == DType::F32 && tensor_dtype(*src) == DType::F32 && tensor_location(*t) is Cpu
            && tensor_location(*src) is Cpu ==> r is Ok,
        r matches Ok(n) ==> grid(n) == (Grid {
            cells: tensor_cells(*t).update(
                row * tensor_dims(*t)[1] + col,
                tensor_cells(*src)[0],
            ),
            ..grid(*t)
        }),
{
    t.slice_assign(&[row..row + 1, col..col + 1], src)
}

/// Whether a tensor has two axes with this row and column on them.
pub open spec fn has_cell(g: Grid, row: usize, col: usize) -> bool {
    g.dims.len() == 2 && row < g.dims[0] && col < g.dims[1]
}

/// `Tensor::broadcast_as` with two axes as the target: one row is repeated on
/// every row, and a single cell on all of them.
#[verifier::external_body]
pub(crate) fn broadcast(t: &Tensor, rows: usize, cols: usize) -> (r: Result<Tensor, Error>)
    ensures
        tensor_dims(*t) == seq![1usize, cols] || tensor_dims(*t) == seq![1usize] ==> r is Ok,
        r matches Ok(n) ==> {
            &&& grid(n) == (Grid { dims: seq![rows, cols], cells: tensor_cells(n), ..grid(*t) })
            &&& tensor_cells(n).len() == rows * cols
            &&& tensor_dims(*t) == seq![1usize, cols] ==> forall|i: int, j: int|
                0 <= i < rows && 0 <= j < cols ==> #[trigger] tensor_cells(n)[i * cols + j]
                    == tensor_cells(*t)[j]
            &&& tensor_dims(*t) == seq![1usize] ==> forall|k: int|
                0 <= k < rows * cols ==> #[trigger] tensor_cells(n)[k] == tensor_cells(*t)[0]
        },
{
    t.broadcast_as((rows, cols))
}

/// `Tensor::gt` on `F32` tensors: for each pair of cells one where the first is
/// greater and zero where it is not. There has to be a cell.
#[verifier::external_body]
pub(crate) fn greater(a: &Tensor, b: &Tensor) -> (r: Result<Tensor, Error>)
    requires
        tensor_dtype(*a) == DType::F32,
        tensor_dtype(*b) == DType::F32,
        countable(tensor_dims(*a)),
        tensor_cells(*a).len() > 0,
        tensor_cells(*b).len() > 0,
    ensures
        tensor_dims(*a) != tensor_dims(*b) ==> r is Err,
        tensor_dims(*a) == tensor_dims(*b) && tensor_location(*a) is Cpu && tensor_location(
            *b,
        ) is Cpu ==> r is Ok,
        r matches Ok(n) ==> grid(n) == (Grid {
            dtype: DType::U8,
            cells: Seq::new(
                tensor_cells(*a).len(),
                |i: int|
                    if float_greater(tensor_cells(*a)[i], tensor_cells(*b)[i]) {
                        1int
                    } else {
                        0int
                    },
            ),
            ..grid(*a)
        }),
{
    a.gt(b)
}

/// `Tensor::where_cond`: the cells of `on_true` where `cond` is not zero, and
/// those of `on_false` where it is. There has to be a cell.
#[verifier::external_body]
pub(crate) fn select(cond: &Tensor, on_true: &Tensor, on_false: &Tensor) -> (r: Result<Tensor, Error>)
    requires
        tensor_dtype(*cond) == DType::U8,
        countable(tensor_dims(*cond)),
        tensor_cells(*cond).len() > 0,
        tensor_cells(*on_true).len() > 0,
        tensor_cells(*on_false).len() > 0,
    ensures
        tensor_dims(*cond) != tensor_dims(*on_true) || tensor_dims(*cond) != tensor_dims(*on_false)
            ==> r is Err,
        tensor_dims(*cond) == tensor_dims(*on_true) && tensor_dims(*cond) == tensor_dims(*on_false)
            && tensor_dtype(*on_true) == DType::F32 && tensor_dtype(*on_false) == DType::F32
            && tensor_location(*cond) is Cpu && tensor_location(*on_true) is Cpu
            && tensor_location(*on_false) is Cpu ==> r is Ok,
        r matches Ok(n) ==> grid(n) == (Grid {
            cells: Seq::new(
                tensor_cells(*on_false).len(),
                |i: int|
                    if tensor_cells(*cond)[i] != 0 {
                        tensor_cells(*on_true)[i]
                    } else {
                        tensor_cells(*on_false)[i]
                    },
            ),
            ..grid(*on_false)
        }),
{
    cond.where_cond(on_true, on_false)
}

/// That `best` is a column of the row `row` of `F32` cells which none of that
/// row's cells exceeds.
pub open spec fn is_best(cells: Seq<int>, cols: int, row: int, best: int) -> bool {
    &&& 0 <= best < cols
    &&& forall|j: int|
        0 <= j < cols ==> float_order(#[trigger] cells[row * cols + j]) <= float_order(
            cells[row * cols + best],
        )
}

/// That `best` is the column of the row `row` of `F32` cells which is found from the
/// left: the first one that none of the row's cells exceeds, or the first of all
/// where its cell is NaN.
pub open spec fn is_found(cells: Seq<int>, cols: int, row: int, best: int) -> bool {
    let top = cells[row * cols + best];
    &&& 0 <= best < cols
    &&& if is_nan(cells[row * cols]) {
        best == 0
    } else {
        &&& !is_nan(top)
        &&& forall|j: int|
            0 <= j < cols && !is_nan(#[trigger] cells[row * cols + j]) ==> float_order(
                cells[row * cols + j],
            ) <= float_order(top)
        &&& forall|j: int|
            0 <= j < best && !is_nan(#[trigger] cells[row * cols + j]) ==> float_order(
                cells[row * cols + j],
            ) < float_order(top)
    }
}

/// One column is found.
pub proof fn lemma_one_found(cells: Seq<int>, cols: int, row: int, a: int, b: int)
    requires
        is_found(cells, cols, row, a),
        is_found(cells, cols, row, b),
    ensures
        a == b,
{
    if !is_nan(cells[row * cols]) {
        assert(float_order(cells[row * cols + a]) <= float_order(cells[row * cols + b]));
        assert(float_order(cells[row * cols + b]) <= float_order(cells[row * cols + a]));
    }
}

/// Whether a row of `F32` cells is free of NaN.
pub open spec fn is_ordered(cells: Seq<int>, cols: int, row: int) -> bool {
    forall|j: int| 0 <= j < cols ==> !is_nan(#[trigger] cells[row * cols + j])
}

/// `Tensor::argmax` along the last of two axes, which has more than one column. On
/// the CPU this is for each row of `F32` cells the column that is found from the
/// left, and on other devices, for a row without NaN, one that holds a greatest cell.
/// Which one it is there, what a row with NaN gives there, and what rows give that
/// have more columns than an unsigned number can count, is not said.
#[verifier::external_body]
pub(crate) fn argmax(t: &Tensor) -> (r: Result<Tensor, Error>)
    requires
        tensor_dtype(*t) == DType::F32,
        tensor_dims(*t).len() == 2,
        tensor_dims(*t)[0] > 0,
        tensor_dims(*t)[1] > 1,
        countable(tensor_dims(*t)),
    ensures
        tensor_location(*t) is Cpu ==> r is Ok,
        r matches Ok(n) ==> {
            &&& tensor_dtype(n) == DType::U32
            &&& tensor_location(n) == tensor_location(*t)
            &&& tensor_dims(n) == seq![tensor_dims(*t)[0]]
            &&& tensor_cells(n).len() == tensor_dims(*t)[0]
            &&& tensor_dims(*t)[1] <= u32::MAX && tensor_location(*t) is Cpu ==> forall|i: int|
                0 <= i < tensor_dims(*t)[0] ==> is_found(
                    tensor_cells(*t),
                    tensor_dims(*t)[1] as int,
                    i,
                    #[trigger] tensor_cells(n)[i],
                )
            &&& tensor_dims(*t)[1] <= u32::MAX ==> forall|i: int|
                0 <= i < tensor_dims(*t)[0] && is_ordered(
                    tensor_cells(*t),
                    tensor_dims(*t)[1] as int,
                    i,
                ) ==> is_best(
                    tensor_cells(*t),
                    tensor_dims(*t)[1] as int,
                    i,
                    #[trigger] tensor_cells(n)[i],
                )
        },
{
    t.argmax(candle_core::D::Minus1)
}

} // verus!
