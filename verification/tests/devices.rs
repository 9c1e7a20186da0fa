use candle_core::{Device, Tensor};
use qwen3_tts::device::{
    choose_device, needs_metal, parse_request, settled, DeviceError, DeviceRequest,
};
use qwen3_tts::{
    auto_device, compute_dtype_for_device, device_info, parse_device, sync_device, DType, Qwen3TTS,
    TtsError,
};

#[test]
fn test_auto_device() {
    let device = auto_device(None).unwrap();
    assert!(
        matches!(device, Device::Cpu)
            || matches!(device, Device::Cuda(_))
            || matches!(device, Device::Metal(_))
    );
}

#[test]
fn test_parse_device_cpu() {
    let device = parse_device("cpu", None).unwrap();
    assert!(matches!(device, Device::Cpu));
}

#[test]
fn test_parse_device_auto() {
    let device = parse_device("auto", None).unwrap();
    assert!(
        matches!(device, Device::Cpu)
            || matches!(device, Device::Cuda(_))
            || matches!(device, Device::Metal(_))
    );
}

#[test]
fn test_parse_device_unknown() {
    let result = parse_device("tpu", None);
    assert!(result.is_err());
}

#[test]
fn test_parse_device_case_insensitive() {
    let device = parse_device("CPU", None).unwrap();
    assert!(matches!(device, Device::Cpu));
}

#[test]
fn test_device_info() {
    assert_eq!(device_info(&Device::Cpu), "CPU");
}

#[test]
fn test_compute_dtype_for_device() {
    let dtype = compute_dtype_for_device(&Device::Cpu);
    assert_eq!(dtype, DType::F32);
}

#[test]
fn test_update_penalty_mask() {
    let device = Device::Cpu;
    let vocab_size = 3072;
    let mut mask = Tensor::zeros((1, vocab_size), candle_core::DType::F32, &device).unwrap();

    Qwen3TTS::update_penalty_mask(&mut mask, 42, vocab_size).unwrap();

    let vals: Vec<f32> = mask.flatten_all().unwrap().to_vec1().unwrap();
    assert_eq!(vals[42], 1.0);
    assert_eq!(vals[41], 0.0);
    assert_eq!(vals[43], 0.0);
}

#[test]
fn test_update_penalty_mask_out_of_range() {
    let device = Device::Cpu;
    let vocab_size = 3072;
    let mut mask = Tensor::zeros((1, vocab_size), candle_core::DType::F32, &device).unwrap();

    Qwen3TTS::update_penalty_mask(&mut mask, 9999, vocab_size).unwrap();

    let sum: f32 = mask.sum_all().unwrap().to_scalar().unwrap();
    assert_eq!(sum, 0.0);
}

#[test]
fn marking_is_idempotent_and_unordered() {
    let device = Device::Cpu;
    let mut a = Tensor::zeros((1, 10), candle_core::DType::F32, &device).unwrap();
    let mut b = a.clone();
    for id in [3u32, 7, 3] {
        Qwen3TTS::update_penalty_mask(&mut a, id, 10).unwrap();
    }
    for id in [7u32, 3] {
        Qwen3TTS::update_penalty_mask(&mut b, id, 10).unwrap();
    }
    let a: Vec<f32> = a.flatten_all().unwrap().to_vec1().unwrap();
    let b: Vec<f32> = b.flatten_all().unwrap().to_vec1().unwrap();
    assert_eq!(a, b);
    assert_eq!(a, vec![0.0, 0.0, 0.0, 1.0, 0.0, 0.0, 0.0, 1.0, 0.0, 0.0]);
}

#[test]
fn a_mask_without_the_token_is_an_error() {
    let mut mask = Tensor::zeros((1, 5), candle_core::DType::F32, &Device::Cpu).unwrap();
    assert!(Qwen3TTS::update_penalty_mask(&mut mask, 8, 10).is_err());
}

#[test]
fn device_strings_in_a_build_with_cards() {
    assert!(matches!(parse_request("cuda", true, true), Ok(DeviceRequest::Cuda(0))));
    assert!(matches!(parse_request("cuda:3", true, true), Ok(DeviceRequest::Cuda(3))));
    assert!(matches!(parse_request("cuda:+3", true, true), Ok(DeviceRequest::Cuda(3))));
    for name in ["cuda9", "cudafoo", "cuda 0", "cud", " cpu", ""] {
        assert!(matches!(parse_request(name, true, true), Err(DeviceError::Unknown(_))));
    }
    assert!(matches!(parse_request("cuda:", true, true), Err(DeviceError::InvalidCudaIndex)));
    assert!(matches!(parse_request("cuda:x", true, true), Err(DeviceError::InvalidCudaIndex)));
    assert!(matches!(
        parse_request("cuda:99999999999999999999", true, true),
        Err(DeviceError::InvalidCudaIndex)
    ));
    assert!(matches!(parse_request("metal", true, true), Ok(DeviceRequest::Metal)));
    assert!(matches!(parse_request("auto", true, true), Ok(DeviceRequest::Auto)));
}

#[test]
fn device_strings_in_a_build_without_cards() {
    assert!(matches!(parse_request("cuda:0", false, false), Err(DeviceError::CudaNotCompiled)));
    assert!(matches!(parse_request("metal", false, false), Err(DeviceError::MetalNotCompiled)));
    match parse_request("tpu", false, false) {
        Err(DeviceError::Unknown(name)) => assert_eq!(name, "tpu"),
        _ => panic!("an unknown device"),
    }
}

#[test]
fn letters_of_any_case_name_the_same_device() {
    assert!(matches!(parse_device("cPu", None).unwrap(), Device::Cpu));
    assert!(parse_device("AuTo", None).is_ok());
    match parse_device("TPU", None) {
        Err(DeviceError::Unknown(name)) => assert_eq!(name, "tpu"),
        _ => panic!("an unknown device"),
    }
}

#[test]
fn the_cpu_is_the_last_choice() {
    assert!(matches!(choose_device(None, None), Device::Cpu));
    assert!(matches!(choose_device(Some(Device::Cpu), None), Device::Cpu));
}

#[test]
fn the_cpu_needs_no_waiting() {
    assert!(sync_device(&Device::Cpu).is_ok());
}

#[test]
fn work_is_complete_where_values_came_back() {
    assert!(settled(Ok(vec![0])).is_ok());
    let lost = candle_core::Error::Msg("lost".to_string());
    match settled(Err(lost)) {
        Err(TtsError::Tensor(e)) => assert_eq!(e.to_string(), "lost"),
        _ => panic!("an error of the device"),
    }
}

#[test]
fn the_metal_device_is_handed_in() {
    assert!(needs_metal("Auto"));
    assert!(needs_metal("METAL"));
    assert!(!needs_metal("cpu"));
    assert!(matches!(parse_device("metal", None), Err(DeviceError::MetalNotCompiled)));
    assert!(matches!(parse_device("Metal", Some(Ok(Device::Cpu))), Ok(Device::Cpu)));
    let lost = candle_core::Error::Msg("lost".to_string());
    match parse_device("metal", Some(Err(lost))) {
        Err(DeviceError::Init(e)) => assert_eq!(e.to_string(), "lost"),
        _ => panic!("an error of the device"),
    }
    let lost = candle_core::Error::Msg("lost".to_string());
    assert!(parse_device("auto", Some(Err(lost))).is_ok());
}
