//! Codec frames and the tensors made of them.
use crate::error::TtsError;
use crate::grid::{all_cells, cells_of, lemma_shape2, lemma_shape3, DType, Grid, Location};
use crate::ops::{cast, numbers, pile};
use crate::tensor::{
    device_location, dims, from_i64, grid, grids, is_converted, tensor_cells, tensor_dims,
    tensor_dtype, tensor_location, zeros,
};
use candle_core::{Device, Tensor};
use vstd::arithmetic::div_mod::lemma_fundamental_div_mod_converse;
use vstd::prelude::*;

verus! {

/// A sequence of codec frames, where each frame contains 16 codebook values
/// (1 semantic + 15 acoustic, formatted as `[semantic, acoustic_0..14]`).
pub type FrameCodes = Vec<Vec<u32>>;

/// The number of codebooks, which is the number of values of a frame.
pub const CODEBOOKS: usize = 16;

/// The values of each frame.
pub open spec fn values(codes: Seq<Vec<u32>>) -> Seq<Seq<u32>> {
    codes.map_values(|v: Vec<u32>| v@)
}

/// The value of one codebook in one frame, or zero where there is none.
pub open spec fn code_at(codes: Seq<Seq<u32>>, frame: int, book: int) -> int {
    if frame < codes.len() && book < codes[frame].len() {
        codes[frame][book] as int
    } else {
        0
    }
}

/// The values of a sequence of frames, codebook by codebook, with room for
/// `frames` frames.
pub open spec fn plane(codes: Seq<Seq<u32>>, frames: nat) -> Seq<int> {
    Seq::new(CODEBOOKS as nat * frames, |k: int| code_at(codes, k % frames as int, k / frames as int))
}

/// The planes of several sequences of frames, one after the other.
pub open spec fn planes(items: Seq<Seq<Seq<u32>>>, frames: nat) -> Seq<int>
    decreases items.len(),
{
    if items.len() == 0 {
        Seq::empty()
    } else {
        planes(items.drop_last(), frames) + plane(items.last(), frames)
    }
}

/// Signed numbers as cells.
pub open spec fn signed_cells(v: Seq<i64>) -> Seq<int> {
    v.map_values(|x: i64| x as int)
}

/// Whether every frame has at most one value for each codebook.
pub open spec fn fit_codebooks(codes: Seq<Seq<u32>>) -> bool {
    forall|f: int| 0 <= f < codes.len() ==> (#[trigger] codes[f]).len() <= CODEBOOKS
}

/// Whether every frame has exactly one value for each codebook.
pub open spec fn full_frames(codes: Seq<Seq<u32>>) -> bool {
    forall|f: int| 0 <= f < codes.len() ==> (#[trigger] codes[f]).len() == CODEBOOKS
}

/// Append the plane of a sequence of frames.
pub fn push_plane(data: &mut Vec<i64>, codes: &[Vec<u32>], frames: usize)
    requires
        CODEBOOKS * frames <= usize::MAX,
    ensures
        signed_cells(final(data)@) == signed_cells(old(data)@) + plane(
            values(codes@),
            frames as nat,
        ),
{
    let ghost start = data@;
    let ghost vals = values(codes@);
    let ghost full = plane(vals, frames as nat);
    let count = codes.len();
    let mut book: usize = 0;
    assert(signed_cells(start) + full.take(0) =~= signed_cells(start));
    while book < CODEBOOKS
        invariant
            CODEBOOKS * frames <= usize::MAX,
            book <= CODEBOOKS,
            count == codes@.len(),
            vals == values(codes@),
            full == plane(vals, frames as nat),
            signed_cells(data@) == signed_cells(start) + full.take(book * frames),
        decreases CODEBOOKS - book,
    {
        let mut frame: usize = 0;
        while frame < frames
            invariant
                CODEBOOKS * frames <= usize::MAX,
                book < CODEBOOKS,
                frame <= frames,
                count == codes@.len(),
                vals == values(codes@),
                full == plane(vals, frames as nat),
                signed_cells(data@) == signed_cells(start) + full.take(book * frames + frame),
            decreases frames - frame,
        {
            let code: i64 = if frame < count && book < codes[frame].len() {
                codes[frame][book] as i64
            } else {
                0
            };
            let ghost k = book * frames + frame;
            let ghost before = data@;
            data.push(code);
            proof {
                assert(k < CODEBOOKS * frames) by (nonlinear_arith)
                    requires
                        k == book * frames + frame,
                        frame < frames,
                        book < CODEBOOKS,
                ;
                lemma_fundamental_div_mod_converse(
                    k,
                    frames as int,
                    book as int,
                    frame as int,
                );
                assert(full[k] == code_at(vals, frame as int, book as int));
                assert(code == code_at(vals, frame as int, book as int));
                assert(full.take(k + 1) =~= full.take(k).push(full[k]));
                assert(signed_cells(data@) =~= signed_cells(before).push(code as int));
                assert(signed_cells(start) + full.take(k + 1) =~= (signed_cells(start) + full.take(
                    k,
                )).push(full[k]));
            }
            frame = frame + 1;
        }
        assert(book * frames + frames == (book + 1) * frames) by (nonlinear_arith);
        book = book + 1;
    }
    assert(full.take(CODEBOOKS * frames) =~= full);
}

/// Convert a slice of codec frames into a tensor of shape `[1, 16, T]`.
///
/// Each frame should contain exactly 16 codebook values; a missing one counts
/// as zero. The output layout is `[q0_f0, q0_f1, ...], [q1_f0, q1_f1, ...]`.
pub fn codes_to_tensor(codes: &[Vec<u32>], device: &Device) -> (r: Result<Tensor, TtsError>)
    requires
        fit_codebooks(values(codes@)),
        codes@.len() * 256 <= usize::MAX,
    ensures
        device_location(*device) is Cpu ==> r is Ok,
        r matches Err(e) ==> e is Tensor,
        r matches Ok(t) ==> grid(t) == codes_grid(values(codes@), device_location(*device)),
{
    let num_frames = codes.len();
    let shape: Vec<usize> = vec![1, CODEBOOKS, num_frames];
    proof {
        lemma_shape3(1, CODEBOOKS, num_frames);
        assert(shape@ =~= seq![1usize, CODEBOOKS, num_frames]);
    }
    if num_frames == 0 {
        return match zeros(&shape, DType::I64, device) {
            Ok(t) => {
                assert(tensor_cells(t) =~= plane(values(codes@), 0));
                Ok(t)
            },
            Err(e) => Err(TtsError::Tensor(e)),
        };
    }
    let mut data: Vec<i64> = Vec::new();
    push_plane(&mut data, codes, num_frames);
    proof {
        assert(signed_cells(data@) =~= plane(values(codes@), num_frames as nat));
        assert(data@.map_values(|v: i64| v as int) =~= signed_cells(data@));
        assert(data@.len() == signed_cells(data@).len());
    }
    match from_i64(data, &shape, device) {
        Ok(t) => Ok(t),
        Err(e) => Err(TtsError::Tensor(e)),
    }
}

/// The contents of the tensor that codec frames give.
pub open spec fn codes_grid(codes: Seq<Seq<u32>>, location: Location) -> Grid {
    Grid {
        dtype: DType::I64,
        location,
        dims: seq![1usize, CODEBOOKS, codes.len() as usize],
        cells: plane(codes, codes.len()),
    }
}

/// Cut a list of numbers into rows, or `None` where there are too few of them.
pub fn split_rows(flat: &Vec<u32>, rows: usize, width: usize) -> (r: Option<FrameCodes>)
    ensures
        r is Some <==> rows * width <= flat@.len(),
        r matches Some(v) ==> {
            &&& v@.len() == rows
            &&& forall|f: int|
                0 <= f < rows ==> (#[trigger] v@[f])@ == flat@.subrange(
                    f * width,
                    f * width + width,
                )
        },
{
    let len = flat.len();
    let total = match rows.checked_mul(width) {
        Some(n) => n,
        None => {
            return None;
        },
    };
    if total > len {
        return None;
    }
    let mut out: FrameCodes = Vec::new();
    let mut f: usize = 0;
    while f < rows
        invariant
            f <= rows,
            len == flat@.len(),
            rows * width <= len,
            out@.len() == f,
            forall|g: int|
                0 <= g < f ==> (#[trigger] out@[g])@ == flat@.subrange(g * width, g * width + width),
        decreases rows - f,
    {
        assert(f * width + width <= rows * width) by (nonlinear_arith)
            requires
                f < rows,
        ;
        let start: usize = f * width;
        let mut row: Vec<u32> = Vec::new();
        let mut i: usize = 0;
        while i < width
            invariant
                i <= width,
                start == f * width,
                len == flat@.len(),
                start + width <= len,
                row@ == flat@.subrange(start as int, start + i),
            decreases width - i,
        {
            row.push(flat[start + i]);
            assert(flat@.subrange(start as int, start + i + 1) =~= flat@.subrange(
                start as int,
                start + i,
            ).push(flat@[start + i]));
            i = i + 1;
        }
        out.push(row);
        f = f + 1;
    }
    Some(out)
}

/// A copy of a frame.
pub fn copy_frame(v: &Vec<u32>) -> (r: Vec<u32>)
    ensures
        r@ == v@,
{
    let mut out: Vec<u32> = Vec::new();
    let mut i: usize = 0;
    while i < v.len()
        invariant
            i <= v@.len(),
            out@ == v@.take(i as int),
        decreases v@.len() - i,
    {
        out.push(v[i]);
        assert(v@.take(i + 1) =~= v@.take(i as int).push(v@[i as int]));
        i = i + 1;
    }
    assert(v@.take(v@.len() as int) =~= v@);
    out
}

/// A copy of frames.
pub fn copy_frames(codes: &[Vec<u32>]) -> (r: FrameCodes)
    ensures
        values(r@) == values(codes@),
{
    let mut out: FrameCodes = Vec::new();
    let mut i: usize = 0;
    while i < codes.len()
        invariant
            i <= codes@.len(),
            out@.len() == i,
            forall|f: int| 0 <= f < i ==> (#[trigger] out@[f])@ == codes@[f]@,
        decreases codes@.len() - i,
    {
        out.push(copy_frame(&codes[i]));
        i = i + 1;
    }
    assert(values(out@) =~= values(codes@));
    out
}

/// Where parts of one length are joined, each stands at its multiple of that length.
pub proof fn lemma_all_cells(parts: Seq<Grid>, width: int, f: int)
    requires
        0 <= f < parts.len(),
        forall|i: int| 0 <= i < parts.len() ==> (#[trigger] parts[i]).cells.len() == width,
    ensures
        all_cells(parts).len() == parts.len() * width,
        f * width + width <= all_cells(parts).len(),
        all_cells(parts).subrange(f * width, f * width + width) == parts[f].cells,
    decreases parts.len(),
{
    let init = parts.drop_last();
    let n = init.len() as int;
    assert(parts.last().cells.len() == width);
    assert forall|i: int| 0 <= i < init.len() implies (#[trigger] init[i]).cells.len() == width by {
        assert(init[i] == parts[i]);
    }
    assert((n + 1) * width == n * width + width) by (nonlinear_arith);
    if n > 0 {
        lemma_all_cells(init, width, 0);
    } else {
        assert(0 * width == 0) by (nonlinear_arith);
    }
    assert(all_cells(init).len() == n * width);
    if f == n {
        assert(all_cells(parts).subrange(f * width, f * width + width) =~= parts[f].cells);
    } else {
        lemma_all_cells(init, width, f);
        assert(init[f] == parts[f]);
        assert(f * width + width <= n * width) by (nonlinear_arith)
            requires
                f < n,
                width >= 0,
        ;
        assert(all_cells(parts).subrange(f * width, f * width + width) =~= all_cells(init).subrange(
            f * width,
            f * width + width,
        ));
    }
}

/// The numbers of a subrange as cells.
proof fn lemma_cells_subrange(v: Seq<u32>, a: int, b: int)
    requires
        0 <= a <= b <= v.len(),
    ensures
        cells_of(v.subrange(a, b)) == cells_of(v).subrange(a, b),
{
    assert(cells_of(v.subrange(a, b)) =~= cells_of(v).subrange(a, b));
}

/// That the frames are what their tensors, taken together, hold: 16 values each,
/// in order.
pub open spec fn transferred(frames: Seq<Tensor>, codes: Seq<Vec<u32>>) -> bool {
    let cells = all_cells(grids(frames));
    &&& codes.len() == frames.len()
    &&& CODEBOOKS * frames.len() <= cells.len()
    &&& forall|f: int|
        0 <= f < codes.len() ==> cells_of((#[trigger] codes[f])@) == cells.subrange(
            f * CODEBOOKS,
            f * CODEBOOKS + CODEBOOKS,
        )
}

/// Transferred frames have a value for each codebook.
pub proof fn lemma_transferred(frames: Seq<Tensor>, codes: Seq<Vec<u32>>)
    requires
        transferred(frames, codes),
    ensures
        full_frames(values(codes)),
{
    let cells = all_cells(grids(frames));
    assert forall|f: int| 0 <= f < codes.len() implies (#[trigger] values(codes)[f]).len()
        == CODEBOOKS by {
        assert(f * CODEBOOKS + CODEBOOKS <= frames.len() * CODEBOOKS) by (nonlinear_arith)
            requires
                f < frames.len(),
        ;
        assert(cells_of(codes[f]@).len() == codes[f]@.len());
        assert(cells_of(codes[f]@).len() == CODEBOOKS);
    }
}

/// Whether a tensor is a frame: 16 numbers on one axis.
pub open spec fn is_frame(g: Grid) -> bool {
    g.dims == seq![CODEBOOKS] && g.dtype == DType::U32 && g.cells.len() == CODEBOOKS
}

/// Whether each tensor is a frame.
pub open spec fn are_frames(frames: Seq<Tensor>) -> bool {
    forall|f: int| 0 <= f < frames.len() ==> is_frame(grid(#[trigger] frames[f]))
}

/// What the tensors of frames hold in all.
pub proof fn lemma_frame_cells(frames: Seq<Tensor>, f: int)
    requires
        are_frames(frames),
        0 <= f < frames.len(),
    ensures
        all_cells(grids(frames)).len() == frames.len() * CODEBOOKS,
        all_cells(grids(frames)).subrange(f * CODEBOOKS, f * CODEBOOKS + CODEBOOKS) == tensor_cells(
            frames[f],
        ),
{
    let parts = grids(frames);
    assert forall|i: int| 0 <= i < parts.len() implies (#[trigger] parts[i]).cells.len()
        == CODEBOOKS by {
        assert(is_frame(grid(frames[i])));
    }
    lemma_all_cells(parts, CODEBOOKS as int, f);
}

/// Read accumulated frame tensors back with one transfer.
///
/// Each frame tensor should hold 16 values. Where they hold fewer in all there
/// is no list of frames.
pub fn gpu_frames_to_frame_codes(frames: &Vec<Tensor>) -> (r: Result<FrameCodes, TtsError>)
    ensures
        r matches Ok(codes) ==> transferred(frames@, codes@),
        r matches Err(e) ==> e.is_computing() || e is BadFrame,
        r matches Ok(codes) ==> (are_frames(frames@) ==> forall|f: int|
            0 <= f < frames@.len() ==> cells_of((#[trigger] codes@[f])@) == tensor_cells(frames@[f])),
        frames@.len() == 0 ==> r is Ok,
        are_frames(frames@) && frames@.len() * 256 <= usize::MAX && (forall|f: int|
            0 <= f < frames@.len() ==> tensor_location(#[trigger] frames@[f]) is Cpu) ==> r is Ok,
{
    if frames.len() == 0 {
        return Ok(Vec::new());
    }
    let ghost parts = grids(frames@);
    proof {
        if are_frames(frames@) && (forall|f: int|
            0 <= f < frames@.len() ==> tensor_location(#[trigger] frames@[f]) is Cpu) {
            assert forall|i: int| 0 <= i < parts.len() implies (Grid {
                cells: parts[0].cells,
                ..#[trigger] parts[i]
            }) == parts[0] by {
                assert(is_frame(grid(frames@[i])));
                assert(is_frame(grid(frames@[0])));
                assert(tensor_location(frames@[i]) is Cpu);
                assert(tensor_location(frames@[0]) is Cpu);
            }
            let n = frames@.len() as usize;
            assert(seq![CODEBOOKS].insert(0, n) =~= seq![n, CODEBOOKS]);
            lemma_shape2(n, CODEBOOKS);
        }
    }
    let stacked = match pile(frames) {
        Ok(t) => t,
        Err(e) => {
            return Err(e);
        },
    };
    let flat = match numbers(&stacked) {
        Ok(v) => v,
        Err(e) => {
            return Err(e);
        },
    };
    proof {
        assert(cells_of(flat@) == all_cells(parts));
        assert(flat@.len() == cells_of(flat@).len());
    }
    match split_rows(&flat, frames.len(), CODEBOOKS) {
        Some(codes) => {
            proof {
                assert forall|f: int| 0 <= f < codes@.len() implies cells_of((#[trigger] codes@[f])@)
                    == all_cells(parts).subrange(f * CODEBOOKS, f * CODEBOOKS + CODEBOOKS) by {
                    assert(f * CODEBOOKS + CODEBOOKS <= codes@.len() * CODEBOOKS) by (nonlinear_arith)
                        requires
                            f < codes@.len(),
                    ;
                    lemma_cells_subrange(flat@, f * CODEBOOKS, f * CODEBOOKS + CODEBOOKS);
                }
                if are_frames(frames@) {
                    assert forall|f: int| 0 <= f < frames@.len() implies cells_of(
                        (#[trigger] codes@[f])@,
                    ) == tensor_cells(frames@[f]) by {
                        lemma_frame_cells(frames@, f);
                    }
                }
            }
            Ok(codes)
        },
        None => {
            proof {
                if are_frames(frames@) {
                    lemma_frame_cells(frames@, 0);
                }
            }
            Err(TtsError::BadFrame)
        },
    }
}

/// The numbers of row `f` of a tensor with rows of this width.
pub open spec fn row(cells: Seq<int>, width: int, f: int) -> Seq<int> {
    cells.subrange(f * width, f * width + width)
}

/// That frames are the rows of a tensor with two axes, as unsigned numbers.
pub open spec fn read_rows(g: Grid, codes: Seq<Vec<u32>>) -> bool {
    &&& g.dims.len() == 2
    &&& codes.len() == g.dims[0]
    &&& forall|f: int| 0 <= f < codes.len() ==> (#[trigger] codes[f])@.len() == g.dims[1]
    &&& exists|u: Grid| #[trigger]
        is_converted(g, DType::U32, u) && g.dims[0] * g.dims[1] <= u.cells.len() && forall|f: int|
            0 <= f < codes.len() ==> cells_of((#[trigger] codes[f])@) == row(
                u.cells,
                g.dims[1] as int,
                f,
            )
}

/// Convert a reference codes tensor `[T_frames, 16]` to frames.
///
/// Each row becomes a frame. Codes that are no unsigned numbers are converted as
/// the device does it.
pub fn tensor_to_frame_codes(codes: &Tensor) -> (r: Result<FrameCodes, TtsError>)
    ensures
        r matches Ok(frames) ==> read_rows(grid(*codes), frames@),
        r matches Err(e) ==> e.is_computing() || e is BadShape || e is BadFrame,
        (r matches Err(e) && e is BadShape) <==> tensor_dims(*codes).len() != 2,
        grid(*codes).at_hand() && tensor_dims(*codes).len() == 2 && (tensor_dtype(*codes)
            == DType::I64 || tensor_dtype(*codes) == DType::U32) ==> r is Ok,
{
    let d = dims(codes);
    if d.len() != 2 {
        return Err(TtsError::BadShape);
    }
    let unsigned = match cast(codes, DType::U32) {
        Ok(t) => t,
        Err(e) => {
            return Err(e);
        },
    };
    let flat = match numbers(&unsigned) {
        Ok(v) => v,
        Err(e) => {
            return Err(e);
        },
    };
    proof {
        assert(d@ =~= seq![d@[0], d@[1]]);
        lemma_shape2(d@[0], d@[1]);
        assert(flat@.len() == cells_of(flat@).len());
    }
    match split_rows(&flat, d[0], d[1]) {
        Some(frames) => {
            proof {
                let width = d@[1] as int;
                let n = d@[0] as int;
                assert forall|f: int| 0 <= f < frames@.len() implies frames@[f]@.len() == width
                    && cells_of((#[trigger] frames@[f])@) == row(tensor_cells(unsigned), width, f) by {
                    assert(f * width + width <= n * width) by (nonlinear_arith)
                        requires
                            f < n,
                            width >= 0,
                    ;
                    assert(0 <= f * width) by (nonlinear_arith)
                        requires
                            f >= 0,
                            width >= 0,
                    ;
                    lemma_cells_subrange(flat@, f * width, f * width + width);
                }
                assert(is_converted(grid(*codes), DType::U32, grid(unsigned)));
            }
            Ok(frames)
        },
        None => Err(TtsError::BadFrame),
    }
}

/// Frames of the reference text that in-context cloning generates first.
pub const WARMUP_MARGIN: usize = 3;

/// How many of the generated frames speak the reference text: three less than
/// it has tokens, unless that leaves nothing.
pub open spec fn warmup(ref_text_len: int, frames: int) -> int {
    let skip = if ref_text_len > WARMUP_MARGIN {
        ref_text_len - WARMUP_MARGIN
    } else {
        0
    };
    if skip < frames {
        skip
    } else {
        0
    }
}

/// How many of the generated frames to leave out.
pub fn warmup_frames(ref_text_len: usize, frames: usize) -> (r: usize)
    ensures
        r == warmup(ref_text_len as int, frames as int),
        r <= frames,
{
    if ref_text_len > WARMUP_MARGIN && ref_text_len - WARMUP_MARGIN < frames {
        ref_text_len - WARMUP_MARGIN
    } else {
        0
    }
}

/// The reference frames followed by the generated ones from `start` on.
pub fn combine(ref_frames: FrameCodes, codes: &FrameCodes, start: usize) -> (r: FrameCodes)
    requires
        start <= codes@.len(),
    ensures
        values(r@) == values(ref_frames@) + values(codes@).skip(start as int),
{
    let mut out = ref_frames;
    let mut i = start;
    assert(values(codes@).subrange(start as int, start as int) =~= Seq::<Seq<u32>>::empty());
    assert(values(out@) =~= values(ref_frames@) + values(codes@).subrange(start as int, i as int));
    while i < codes.len()
        invariant
            start <= i <= codes@.len(),
            values(out@) == values(ref_frames@) + values(codes@).subrange(start as int, i as int),
        decreases codes@.len() - i,
    {
        let ghost before = out@;
        out.push(copy_frame(&codes[i]));
        proof {
            let vals = values(codes@);
            assert(values(out@) =~= values(before).push(vals[i as int]));
            assert(vals.subrange(start as int, i + 1) =~= vals.subrange(start as int, i as int).push(
                vals[i as int],
            ));
            assert(values(ref_frames@) + vals.subrange(start as int, i + 1) =~= (values(ref_frames@)
                + vals.subrange(start as int, i as int)).push(vals[i as int]));
        }
        i = i + 1;
    }
    assert(values(codes@).subrange(start as int, codes@.len() as int) =~= values(codes@).skip(
        start as int,
    ));
    out
}

/// Whether every frame has at most one value for each codebook.
pub fn fits_codebooks(codes: &FrameCodes) -> (r: bool)
    ensures
        r == fit_codebooks(values(codes@)),
{
    let mut i: usize = 0;
    while i < codes.len()
        invariant
            i <= codes@.len(),
            forall|f: int| 0 <= f < i ==> (#[trigger] values(codes@)[f]).len() <= CODEBOOKS,
        decreases codes@.len() - i,
    {
        if codes[i].len() > CODEBOOKS {
            assert(values(codes@)[i as int].len() > CODEBOOKS);
            return false;
        }
        i = i + 1;
    }
    true
}

/// Convert frames into the tensor that the decoder takes, or refuse frames with
/// too many values.
pub fn frames_to_tensor(codes: &FrameCodes, device: &Device) -> (r: Result<Tensor, TtsError>)
    ensures
        r matches Ok(t) ==> grid(t) == codes_grid(values(codes@), device_location(*device)),
        r matches Err(e) ==> e.is_computing() || e is BadFrame,
        (r matches Err(e) && e is BadFrame) <==> !fit_codebooks(values(codes@)),
        fit_codebooks(values(codes@)) && codes@.len() * 256 <= usize::MAX && device_location(
            *device,
        ) is Cpu ==> r is Ok,
{
    if !fits_codebooks(codes) {
        return Err(TtsError::BadFrame);
    }
    if codes.len() > usize::MAX / 256 {
        return Err(TtsError::Overflow);
    }
    codes_to_tensor(codes.as_slice(), device)
}

} // verus!
