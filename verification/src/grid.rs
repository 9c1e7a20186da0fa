//! A mathematical model of tensors: an element type, the dimension sizes and
//! the cells in row-major order.
use vstd::prelude::*;

verus! {

/// The types of tensor elements.
#[derive(Clone, Copy, Debug, PartialEq, Eq, Structural)]
pub enum DType {
    U8,
    U32,
    I16,
    I32,
    I64,
    BF16,
    F16,
    F32,
    F64,
    F8E4M3,
    /// A type that can be stored but not computed with.
    Other,
}

/// Where a tensor lives: on the CPU, or on a card with this number.
#[derive(Clone, Copy, Debug, PartialEq, Eq, Structural)]
pub enum Location {
    Cpu,
    Cuda(usize),
    Metal(usize),
}

/// The contents of a tensor.
///
/// A cell of an integer tensor is its value. A cell of a floating-point tensor
/// is the number whose binary digits are the element's bits, so that moving
/// cells about keeps them exactly.
pub struct Grid {
    pub dtype: DType,
    pub location: Location,
    pub dims: Seq<usize>,
    pub cells: Seq<int>,
}

/// The number of cells of a tensor with these dimension sizes.
pub open spec fn volume(dims: Seq<usize>) -> nat
    decreases dims.len(),
{
    if dims.len() == 0 {
        1
    } else {
        volume(dims.drop_last()) * dims.last() as nat
    }
}

/// The product of the sizes, where an empty axis counts as one.
pub open spec fn span(dims: Seq<usize>) -> nat
    decreases dims.len(),
{
    if dims.len() == 0 {
        1
    } else {
        span(dims.drop_last()) * if dims.last() == 0 {
            1
        } else {
            dims.last() as nat
        }
    }
}

/// Whether memory can be asked for as many cells as these sizes give, in
/// whatever order they are multiplied.
pub open spec fn countable(dims: Seq<usize>) -> bool {
    span(dims) * 16 <= usize::MAX
}

/// The number of blocks into which axis `dim` cuts the cells.
pub open spec fn outer(dims: Seq<usize>, dim: int) -> nat {
    volume(dims.take(dim))
}

/// The number of cells at one index of axis `dim` within a block.
pub open spec fn inner(dims: Seq<usize>, dim: int) -> nat {
    volume(dims.skip(dim + 1))
}

/// From each of the first `blocks` blocks of `block` cells, the `len` cells
/// that start at `start`.
pub open spec fn pick(cells: Seq<int>, block: nat, start: nat, len: nat, blocks: nat) -> Seq<int>
    decreases blocks,
{
    if blocks == 0 {
        Seq::empty()
    } else {
        let base = (blocks - 1) * block + start;
        pick(cells, block, start, len, (blocks - 1) as nat) + cells.subrange(base, base + len)
    }
}

/// The first `blocks` blocks of `a` and of `b`, alternating.
pub open spec fn weave(a: Seq<int>, b: Seq<int>, ablock: nat, bblock: nat, blocks: nat) -> Seq<int>
    decreases blocks,
{
    if blocks == 0 {
        Seq::empty()
    } else {
        let k = blocks - 1;
        weave(a, b, ablock, bblock, k as nat) + a.subrange(k * ablock, k * ablock + ablock)
            + b.subrange(k * bblock, k * bblock + bblock)
    }
}

impl DType {
    /// Whether elements of this type are integers.
    pub open spec fn is_integer(self) -> bool {
        self == DType::U8 || self == DType::U32 || self == DType::I16 || self == DType::I32 || self
            == DType::I64
    }

    /// Whether elements of this type are floats that every device computes with.
    pub open spec fn is_float(self) -> bool {
        self == DType::BF16 || self == DType::F16 || self == DType::F32 || self == DType::F64
    }
}

impl Grid {
    /// The part of the tensor where axis `dim` runs over `start..start + len`.
    pub open spec fn narrow(self, dim: int, start: usize, len: usize) -> Grid {
        let inner = inner(self.dims, dim);
        Grid {
            dims: self.dims.update(dim, len),
            cells: pick(
                self.cells,
                self.dims[dim] as nat * inner,
                start as nat * inner,
                len as nat * inner,
                outer(self.dims, dim),
            ),
            ..self
        }
    }

    /// Whether the tensor is in the CPU's memory.
    pub open spec fn at_hand(self) -> bool {
        self.location is Cpu && countable(self.dims)
    }

    /// Whether `start..start + len` lies on axis `dim`.
    pub open spec fn has_range(self, dim: int, start: usize, len: usize) -> bool {
        0 <= dim < self.dims.len() && start + len <= self.dims[dim]
    }

    /// The tensor without axis `dim` if that axis has size one, else unchanged.
    pub open spec fn squeeze(self, dim: int) -> Grid {
        if self.dims[dim] == 1 {
            Grid { dims: self.dims.remove(dim), ..self }
        } else {
            self
        }
    }

    /// The tensor with an axis of size one put in at `dim`.
    pub open spec fn unsqueeze(self, dim: int) -> Grid {
        Grid { dims: self.dims.insert(dim, 1), ..self }
    }

    /// The same cells under other dimension sizes.
    pub open spec fn reshape(self, dims: Seq<usize>) -> Grid {
        Grid { dims, ..self }
    }

    /// The same cells on one axis.
    pub open spec fn flatten(self) -> Grid {
        self.reshape(seq![self.cells.len() as usize])
    }

    /// This tensor followed by another one along axis `dim`.
    pub open spec fn join(self, next: Grid, dim: int) -> Grid {
        Grid {
            dims: self.dims.update(dim, (self.dims[dim] + next.dims[dim]) as usize),
            cells: weave(
                self.cells,
                next.cells,
                self.dims[dim] as nat * inner(self.dims, dim),
                next.dims[dim] as nat * inner(next.dims, dim),
                outer(self.dims, dim),
            ),
            ..self
        }
    }

    /// Whether two tensors differ at most in the size of axis `dim`.
    pub open spec fn fits(self, next: Grid, dim: int) -> bool {
        &&& self.dtype == next.dtype
        &&& self.location == next.location
        &&& 0 <= dim < self.dims.len()
        &&& self.dims.len() == next.dims.len()
        &&& forall|i: int| 0 <= i < self.dims.len() && i != dim ==> self.dims[i] == next.dims[i]
    }
}

/// Tensors joined one after the other along axis `dim`.
pub open spec fn join_all(parts: Seq<Grid>, dim: int) -> Grid
    decreases parts.len(),
{
    if parts.len() <= 1 {
        parts[0]
    } else {
        join_all(parts.drop_last(), dim).join(parts.last(), dim)
    }
}

/// The size that axis `dim` gets where tensors are joined along it.
pub open spec fn axis_total(parts: Seq<Grid>, dim: int) -> nat
    decreases parts.len(),
{
    if parts.len() == 0 {
        0
    } else {
        axis_total(parts.drop_last(), dim) + if dim < parts.last().dims.len() {
            parts.last().dims[dim] as nat
        } else {
            0
        }
    }
}

/// Whether tensors can be joined along axis `dim`: they agree in element type
/// and location, and in every other axis.
pub open spec fn joinable(parts: Seq<Grid>, dim: int) -> bool {
    &&& parts.len() > 0
    &&& parts.len() > 1 ==> forall|i: int|
        0 <= i < parts.len() ==> parts[0].fits(#[trigger] parts[i], dim)
}

/// The cells of all parts, in order.
pub open spec fn all_cells(parts: Seq<Grid>) -> Seq<int>
    decreases parts.len(),
{
    if parts.len() == 0 {
        Seq::empty()
    } else {
        all_cells(parts.drop_last()) + parts.last().cells
    }
}

/// Tensors of one shape, stacked along a new first axis.
pub open spec fn stack_all(parts: Seq<Grid>) -> Grid {
    Grid {
        dims: parts[0].dims.insert(0, parts.len() as usize),
        cells: all_cells(parts),
        ..parts[0]
    }
}

/// Numbers as cells.
pub open spec fn cells_of(values: Seq<u32>) -> Seq<int> {
    values.map_values(|v: u32| v as int)
}

/// The `F32` cell that stands for minus infinity.
pub const NEG_INFINITY: u32 = 0xFF80_0000;

/// The `F32` cell that stands for one.
pub const ONE: u32 = 0x3F80_0000;

/// Whether an `F32` cell is not a number.
pub open spec fn is_nan(cell: int) -> bool {
    cell % 0x8000_0000 > 0x7F80_0000
}

/// A number that orders `F32` cells other than NaN as the floats are ordered.
pub open spec fn float_order(cell: int) -> int {
    if cell < 0x8000_0000 {
        cell
    } else {
        0x8000_0000 - cell
    }
}

/// Whether one `F32` cell is greater than another. No comparison with NaN holds.
pub open spec fn float_greater(a: int, b: int) -> bool {
    !is_nan(a) && !is_nan(b) && float_order(a) > float_order(b)
}

/// The volume and the span of one axis.
pub proof fn lemma_shape1(a: usize)
    ensures
        volume(seq![a]) == a,
        span(seq![a]) == if a == 0 {
            1
        } else {
            a as int
        },
{
    let s = seq![a];
    assert(s.drop_last().len() == 0);
    assert(volume(s.drop_last()) == 1);
    assert(span(s.drop_last()) == 1);
    assert(s.last() == a);
    assert(span(s) == span(s.drop_last()) * if a == 0 {
        1
    } else {
        a as nat
    });
}

/// The volume of two axes is the product of their sizes, and so is the span if
/// neither is empty.
pub proof fn lemma_shape2(a: usize, b: usize)
    ensures
        volume(seq![a, b]) == a * b,
        a > 0 && b > 0 ==> span(seq![a, b]) == a * b,
{
    let s = seq![a, b];
    assert(s.drop_last() =~= seq![a]);
    lemma_shape1(a);
}

/// The volume of three axes is the product of their sizes, and so is the span
/// but for an empty last axis.
pub proof fn lemma_shape3(a: usize, b: usize, c: usize)
    ensures
        volume(seq![a, b, c]) == a * b * c,
        a > 0 && b > 0 ==> span(seq![a, b, c]) == a * b * (if c == 0 {
            1
        } else {
            c as int
        }),
{
    let s = seq![a, b, c];
    assert(s.drop_last() =~= seq![a, b]);
    lemma_shape2(a, b);
}

} // verus!
