//! Compute devices.
use crate::error::TtsError;
use crate::grid::{cells_of, span, volume, DType, Grid, Location};
use crate::tensor::{device_location, grid, tensor_cells, to_u32, zeros};
use crate::text::{has_prefix, index_value, parse_index, same_text};
use candle_core::{Device, Error, Tensor};
use vstd::prelude::*;

verus! {

/// The kinds of devices.
#[derive(Clone, Copy, Debug, PartialEq, Eq, Structural)]
pub enum DeviceKind {
    Cpu,
    Cuda,
    Metal,
}

/// Why a device string gives no device.
#[derive(Debug)]
pub enum DeviceError {
    /// The index behind `cuda:` is no machine number.
    InvalidCudaIndex,
    /// There is no CUDA support in this build.
    CudaNotCompiled,
    /// There is no Metal support in this build.
    MetalNotCompiled,
    /// No device is called that.
    Unknown(String),
    /// The device could not be set up.
    Init(Error),
}

/// Which device a device string asks for.
#[derive(Clone, Copy, Debug, PartialEq, Eq, Structural)]
pub enum DeviceRequest {
    Auto,
    Cpu,
    Cuda(usize),
    Metal,
}

/// What there is to be said of a device string.
pub enum Wanted {
    Request(DeviceRequest),
    InvalidCudaIndex,
    CudaNotCompiled,
    MetalNotCompiled,
    Unknown,
}

/// The kind of device where tensors with this location live.
pub open spec fn kind_of(location: Location) -> DeviceKind {
    match location {
        Location::Cpu => DeviceKind::Cpu,
        Location::Cuda(_) => DeviceKind::Cuda,
        Location::Metal(_) => DeviceKind::Metal,
    }
}

/// The text with every letter in lower case.
pub uninterp spec fn lowercase(s: Seq<char>) -> Seq<char>;

/// Whether a text is made of ASCII characters.
pub open spec fn ascii(s: Seq<char>) -> bool {
    forall|i: int| 0 <= i < s.len() ==> #[trigger] (s[i] as int) < 128
}

/// An ASCII character in lower case.
pub open spec fn lower(c: char) -> char {
    if 'A' <= c <= 'Z' {
        (c as int + 32) as char
    } else {
        c
    }
}

/// `str::to_lowercase`: Unicode lower case, which changes ASCII text character
/// by character.
#[verifier::external_body]
fn to_lowercase(s: &str) -> (r: String)
    ensures
        r@ == lowercase(s@),
        ascii(s@) ==> r@ == s@.map_values(|c: char| lower(c)),
{
    s.to_lowercase()
}

/// `candle_core::utils::cuda_is_available`: whether CUDA support was compiled
/// in, which depends on the build.
#[verifier::external_body]
fn cuda_is_available() -> bool {
    candle_core::utils::cuda_is_available()
}

/// `candle_core::Device::cuda_if_available`: the card with that number, or the
/// CPU in a build without CUDA. Whether it succeeds is up to the machine.
#[verifier::external_body]
fn open_cuda(ordinal: usize) -> (r: Result<Device, Error>)
    ensures
        r matches Ok(d) ==> device_location(d) == Location::Cuda(ordinal) || device_location(d)
            == Location::Cpu,
{
    Device::cuda_if_available(ordinal)
}

/// `candle_core::Device::Cpu`.
#[verifier::external_body]
pub(crate) fn cpu() -> (r: Device)
    ensures
        device_location(r) == Location::Cpu,
{
    Device::Cpu
}

/// Which of its kinds a `candle_core::Device` is.
#[verifier::external_body]
pub(crate) fn kind(device: &Device) -> (r: DeviceKind)
    ensures
        r == kind_of(device_location(*device)),
{
    match device {
        Device::Cpu => DeviceKind::Cpu,
        Device::Cuda(_) => DeviceKind::Cuda,
        Device::Metal(_) => DeviceKind::Metal,
    }
}

/// Return the recommended compute dtype for the given device.
///
/// `BF16` for CUDA and Metal (lower memory, faster attention) and `F32` for CPU.
pub fn compute_dtype_for_device(device: &Device) -> (r: DType)
    ensures
        r == dtype_for(device_location(*device)),
{
    match kind(device) {
        DeviceKind::Cpu => DType::F32,
        DeviceKind::Cuda => DType::BF16,
        DeviceKind::Metal => DType::BF16,
    }
}

/// The compute dtype for a device with this location.
pub open spec fn dtype_for(location: Location) -> DType {
    if location is Cpu {
        DType::F32
    } else {
        DType::BF16
    }
}

/// The label of a kind of device.
pub open spec fn kind_label(kind: DeviceKind) -> Seq<char> {
    match kind {
        DeviceKind::Cpu => "CPU"@,
        DeviceKind::Cuda => "CUDA"@,
        DeviceKind::Metal => "Metal"@,
    }
}

/// Human-readable label for a device.
pub fn device_info(device: &Device) -> (r: String)
    ensures
        r@ == kind_label(kind_of(device_location(*device))),
{
    match kind(device) {
        DeviceKind::Cpu => "CPU".to_owned(),
        DeviceKind::Cuda => "CUDA".to_owned(),
        DeviceKind::Metal => "Metal".to_owned(),
    }
}

/// That `t` is a single zero that lives at this location.
pub open spec fn is_zero_at(t: Tensor, location: Location) -> bool {
    grid(t) == (Grid {
        dtype: DType::U32,
        location,
        dims: seq![1usize],
        cells: seq![0int],
    })
}

/// Make a single zero on a device and read it back.
fn read_back(device: &Device) -> (r: Result<Vec<u32>, Error>)
    ensures
        r matches Ok(values) ==> values@ == seq![0u32] && exists|t: Tensor|
            #[trigger] is_zero_at(t, device_location(*device)),
        device_location(*device) is Cpu ==> r is Ok,
{
    let one: Vec<usize> = vec![1];
    proof {
        reveal_with_fuel(span, 2);
        reveal_with_fuel(volume, 2);
    }
    assert(one@ =~= seq![1usize]);
    let t = zeros(&one, DType::U32, device)?;
    assert(tensor_cells(t) =~= seq![0int]);
    assert(is_zero_at(t, device_location(*device)));
    let values = to_u32(&t)?;
    proof {
        assert(values@.len() == cells_of(values@).len());
        assert(cells_of(values@)[0] == values@[0]);
        assert(values@ =~= seq![0u32]);
    }
    Ok(values)
}

/// What reading back from a device says of its pending work: where the values
/// came, it is complete, and where they did not, this is why.
pub fn settled(read: Result<Vec<u32>, Error>) -> (r: Result<(), TtsError>)
    ensures
        r is Ok <==> read is Ok,
        read matches Err(e) ==> r == Err::<(), TtsError>(TtsError::Tensor(e)),
{
    match read {
        Ok(_) => Ok(()),
        Err(e) => Err(TtsError::Tensor(e)),
    }
}

/// Force the device to complete all pending work before returning, by reading
/// back a zero made there. Elsewhere than on the CPU it has succeeded only where
/// that zero could be made on the device and came back.
///
/// The work of a CPU is never pending, so there this does nothing.
pub fn sync_device(device: &Device) -> (r: Result<(), TtsError>)
    ensures
        device_location(*device) is Cpu ==> r is Ok,
        r is Ok && !(device_location(*device) is Cpu) ==> exists|t: Tensor|
            #[trigger] is_zero_at(t, device_location(*device)),
        r matches Err(e) ==> e is Tensor,
{
    match kind(device) {
        DeviceKind::Cpu => Ok(()),
        _ => settled(read_back(device)),
    }
}

/// That a device is the one to take, from what was found: a CUDA device first, then a
/// Metal device, else the CPU. What is not a CUDA device counts as none.
pub open spec fn is_choice(cuda: Option<Device>, metal: Option<Device>, d: Device) -> bool {
    match (cuda, metal) {
        (Some(c), _) if device_location(c) is Cuda => d == c,
        (_, Some(m)) => d == m,
        _ => device_location(d) == Location::Cpu,
    }
}

/// The device to take, from what was found.
pub fn choose_device(cuda: Option<Device>, metal: Option<Device>) -> (r: Device)
    ensures
        is_choice(cuda, metal, r),
{
    if let Some(device) = cuda {
        if let DeviceKind::Cuda = kind(&device) {
            return device;
        }
    }
    match metal {
        Some(device) => device,
        None => cpu(),
    }
}

/// What came of opening the Metal device: nothing in a build without Metal.
pub type Metal = Option<Result<Device, Error>>;

/// The Metal device, where it could be opened.
pub open spec fn opened(metal: Metal) -> Option<Device> {
    match metal {
        Some(Ok(d)) => Some(d),
        _ => None,
    }
}

/// That a search for CUDA device zero can find this: that device, or the CPU in a
/// build without CUDA, or nothing.
pub open spec fn is_first_card(cuda: Option<Device>) -> bool {
    cuda matches Some(c) ==> device_location(c) == Location::Cuda(0) || device_location(c)
        == Location::Cpu
}

/// That a device is the best one: CUDA device zero where it was found, else the
/// Metal device, else the CPU.
pub open spec fn is_best_device(d: Device, metal: Metal) -> bool {
    exists|cuda: Option<Device>| is_first_card(cuda) && #[trigger] is_choice(cuda, opened(metal), d)
}

/// Select the best available compute device for inference.
///
/// Checks for available hardware in order: CUDA, Metal, CPU. There is always a
/// device. The Metal device is opened by the caller.
pub fn auto_device(metal: Metal) -> (r: Result<Device, DeviceError>)
    ensures
        r matches Ok(d) && is_best_device(d, metal),
{
    let cuda = if cuda_is_available() {
        match open_cuda(0) {
            Ok(device) => Some(device),
            Err(_) => None,
        }
    } else {
        None
    };
    let ghost found = opened(metal);
    let metal = match metal {
        Some(Ok(device)) => Some(device),
        _ => None,
    };
    let device = choose_device(cuda, metal);
    assert(is_first_card(cuda) && is_choice(cuda, found, device));
    Ok(device)
}

/// What a device string in lower case asks for, in a build with or without CUDA
/// and Metal.
pub open spec fn wanted(name: Seq<char>, cuda: bool, metal: bool) -> Wanted {
    if name == "auto"@ {
        Wanted::Request(DeviceRequest::Auto)
    } else if name == "cpu"@ {
        Wanted::Request(DeviceRequest::Cpu)
    } else if name == "cuda"@ {
        if cuda {
            Wanted::Request(DeviceRequest::Cuda(0))
        } else {
            Wanted::CudaNotCompiled
        }
    } else if "cuda:"@.is_prefix_of(name) {
        if cuda {
            match index_value(name.skip(5)) {
                Some(n) => Wanted::Request(DeviceRequest::Cuda(n)),
                None => Wanted::InvalidCudaIndex,
            }
        } else {
            Wanted::CudaNotCompiled
        }
    } else if name == "metal"@ {
        if metal {
            Wanted::Request(DeviceRequest::Metal)
        } else {
            Wanted::MetalNotCompiled
        }
    } else {
        Wanted::Unknown
    }
}

/// That a result is what there is to be said of a device string.
pub open spec fn answers(
    r: Result<DeviceRequest, DeviceError>,
    name: Seq<char>,
    wanted: Wanted,
) -> bool {
    match wanted {
        Wanted::Request(q) => r == Ok::<DeviceRequest, DeviceError>(q),
        Wanted::InvalidCudaIndex => r is Err && r->Err_0 is InvalidCudaIndex,
        Wanted::CudaNotCompiled => r is Err && r->Err_0 is CudaNotCompiled,
        Wanted::MetalNotCompiled => r is Err && r->Err_0 is MetalNotCompiled,
        Wanted::Unknown => r matches Err(DeviceError::Unknown(n)) && n@ == name,
    }
}

/// Read a device string in lower case.
pub fn parse_request(name: &str, cuda: bool, metal: bool) -> (r: Result<DeviceRequest, DeviceError>)
    ensures
        answers(r, name@, wanted(name@, cuda, metal)),
{
    if same_text(name, "auto") {
        Ok(DeviceRequest::Auto)
    } else if same_text(name, "cpu") {
        Ok(DeviceRequest::Cpu)
    } else if same_text(name, "cuda") {
        if cuda {
            Ok(DeviceRequest::Cuda(0))
        } else {
            Err(DeviceError::CudaNotCompiled)
        }
    } else if has_prefix(name, "cuda:") {
        if cuda {
            proof {
                reveal_strlit("cuda:");
            }
            match parse_index(name, 5) {
                Some(n) => Ok(DeviceRequest::Cuda(n)),
                None => Err(DeviceError::InvalidCudaIndex),
            }
        } else {
            Err(DeviceError::CudaNotCompiled)
        }
    } else if same_text(name, "metal") {
        if metal {
            Ok(DeviceRequest::Metal)
        } else {
            Err(DeviceError::MetalNotCompiled)
        }
    } else {
        Err(DeviceError::Unknown(name.to_owned()))
    }
}

/// That a result is a device that was asked for, or the reason why there is none.
pub open spec fn serves(
    r: Result<Device, DeviceError>,
    name: Seq<char>,
    wanted: Wanted,
    metal: Metal,
) -> bool {
    match wanted {
        Wanted::Request(DeviceRequest::Auto) => r matches Ok(d) && is_best_device(d, metal),
        Wanted::Request(DeviceRequest::Cpu) => r matches Ok(d) && device_location(d)
            == Location::Cpu,
        Wanted::Request(DeviceRequest::Cuda(n)) => match r {
            Ok(d) => device_location(d) == Location::Cuda(n) || device_location(d) == Location::Cpu,
            Err(e) => e is Init,
        },
        Wanted::Request(DeviceRequest::Metal) => match metal {
            Some(Ok(m)) => r matches Ok(d) && d == m,
            Some(Err(e)) => r matches Err(DeviceError::Init(i)) && i == e,
            None => false,
        },
        Wanted::InvalidCudaIndex => r is Err && r->Err_0 is InvalidCudaIndex,
        Wanted::CudaNotCompiled => r is Err && r->Err_0 is CudaNotCompiled,
        Wanted::MetalNotCompiled => r is Err && r->Err_0 is MetalNotCompiled,
        Wanted::Unknown => r matches Err(DeviceError::Unknown(n)) && n@ == name,
    }
}

/// Whether a device string may ask for the Metal device, so that it has to be
/// opened.
pub fn needs_metal(device_str: &str) -> (r: bool)
    ensures
        r == (lowercase(device_str@) == "auto"@ || lowercase(device_str@) == "metal"@),
{
    let name = to_lowercase(device_str);
    same_text(name.as_str(), "auto") || same_text(name.as_str(), "metal")
}

/// Parse a device string into a device. Upper and lower case do not differ.
///
/// Supported formats:
/// - `"auto"`: select best available via [`auto_device`]
/// - `"cpu"`: force CPU
/// - `"cuda"` or `"cuda:0"`: CUDA device 0
/// - `"cuda:N"`: CUDA device N
/// - `"metal"`: Apple Silicon GPU, which the caller opens
///
/// # Errors
///
/// Returns an error if the device string is unrecognized, the requested
/// backend wasn't compiled in, or hardware initialization fails.
pub fn parse_device(device_str: &str, metal: Metal) -> (r: Result<Device, DeviceError>)
    ensures
        exists|cuda: bool|
            serves(
                r,
                lowercase(device_str@),
                #[trigger] wanted(lowercase(device_str@), cuda, metal is Some),
                metal,
            ),
        ascii(device_str@) ==> lowercase(device_str@) == device_str@.map_values(|c: char| lower(c)),
{
    let name = to_lowercase(device_str);
    let cuda = cuda_is_available();
    let has_metal = match &metal {
        Some(_) => true,
        None => false,
    };
    let ghost w = wanted(name@, cuda, has_metal);
    match parse_request(name.as_str(), cuda, has_metal) {
        Ok(DeviceRequest::Auto) => auto_device(metal),
        Ok(DeviceRequest::Cpu) => Ok(cpu()),
        Ok(DeviceRequest::Cuda(ordinal)) => match open_cuda(ordinal) {
            Ok(device) => Ok(device),
            Err(e) => Err(DeviceError::Init(e)),
        },
        Ok(DeviceRequest::Metal) => match metal {
            Some(Ok(device)) => Ok(device),
            Some(Err(e)) => Err(DeviceError::Init(e)),
            None => Err(DeviceError::MetalNotCompiled),
        },
        Err(e) => Err(e),
    }
}

} // verus!
