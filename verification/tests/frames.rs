use candle_core::{DType as CandleType, Device, Tensor};
use qwen3_tts::audio::reference_cut;
use qwen3_tts::batch::{
    append_frames, batch_tensor, choose_codes, each_of, longest_codes, non_empty, rows_of, trimmed,
};
use qwen3_tts::codes::{
    codes_to_tensor, combine, copy_frames, fits_codebooks, frames_to_tensor,
    gpu_frames_to_frame_codes, tensor_to_frame_codes, warmup_frames,
};
use qwen3_tts::generation::{
    frame_from_id, frame_from_tensor, hold_back_eos, last_position, sampled_token, step_input,
    suppress_column, to_logits,
};
use qwen3_tts::ops::{cast, concat2, flat, is_countable, numbers, part, pile, shaped, sum};
use qwen3_tts::padding::{build_batched_causal_mask, longest, pad_left, token_positions};
use qwen3_tts::{AudioBuffer, DType, SynthesisOptions, TtsError};

fn frame(first: u32) -> Vec<u32> {
    (first..first + 16).collect()
}

fn floats(t: &Tensor) -> Vec<f32> {
    t.flatten_all().unwrap().to_vec1().unwrap()
}

fn line(values: &[f32]) -> Tensor {
    Tensor::new(values, &Device::Cpu).unwrap()
}

fn grid(rows: usize, cols: usize, values: Vec<f32>) -> Tensor {
    Tensor::from_vec(values, (rows, cols), &Device::Cpu).unwrap()
}

#[test]
fn test_codes_to_tensor_empty() {
    let device = Device::Cpu;
    let codes: Vec<Vec<u32>> = vec![];
    let tensor = codes_to_tensor(&codes, &device).unwrap();
    assert_eq!(tensor.dims(), &[1, 16, 0]);
}

#[test]
fn test_codes_to_tensor_single_frame() {
    let device = Device::Cpu;
    let codes = vec![vec![0u32; 16]];
    let tensor = codes_to_tensor(&codes, &device).unwrap();
    assert_eq!(tensor.dims(), &[1, 16, 1]);
}

#[test]
fn test_codes_to_tensor_layout() {
    let device = Device::Cpu;
    let codes = vec![
        (0..16).map(|i| i as u32).collect::<Vec<_>>(),
        (100..116).map(|i| i as u32).collect::<Vec<_>>(),
    ];
    let tensor = codes_to_tensor(&codes, &device).unwrap();
    assert_eq!(tensor.dims(), &[1, 16, 2]);

    let vals: Vec<i64> = tensor.flatten_all().unwrap().to_vec1().unwrap();
    assert_eq!(vals[0], 0);
    assert_eq!(vals[1], 100);
    assert_eq!(vals[2], 1);
    assert_eq!(vals[3], 101);
}

#[test]
fn each_code_stands_at_its_codebook_and_frame() {
    let codes = vec![frame(10), frame(1000), frame(3000)];
    let t = codes_to_tensor(&codes, &Device::Cpu).unwrap();
    let vals: Vec<i64> = t.flatten_all().unwrap().to_vec1().unwrap();
    for f in 0..3 {
        for q in 0..16 {
            assert_eq!(vals[q * 3 + f], codes[f][q] as i64);
        }
    }
}

#[test]
fn different_frames_give_different_tensors() {
    let a = codes_to_tensor(&[frame(10), frame(20)], &Device::Cpu).unwrap();
    let b = codes_to_tensor(&[frame(20), frame(10)], &Device::Cpu).unwrap();
    let a: Vec<i64> = a.flatten_all().unwrap().to_vec1().unwrap();
    let b: Vec<i64> = b.flatten_all().unwrap().to_vec1().unwrap();
    assert_ne!(a, b);
    assert_eq!(a[1], 20);
    assert_eq!(b[1], 10);
}

#[test]
fn a_missing_code_is_zero() {
    let t = frames_to_tensor(&vec![vec![7]], &Device::Cpu).unwrap();
    let vals: Vec<i64> = t.flatten_all().unwrap().to_vec1().unwrap();
    assert_eq!(vals[0], 7);
    assert!(vals[1..].iter().all(|v| *v == 0));
}

#[test]
fn a_frame_with_too_many_codes_is_refused() {
    let codes = vec![frame(0), vec![0; 17]];
    assert!(!fits_codebooks(&codes));
    assert!(matches!(frames_to_tensor(&codes, &Device::Cpu), Err(TtsError::BadFrame)));
}

#[test]
fn frames_come_back_from_their_tensors() {
    let frames = vec![
        Tensor::new(frame(5).as_slice(), &Device::Cpu).unwrap(),
        Tensor::new(frame(50).as_slice(), &Device::Cpu).unwrap(),
    ];
    assert_eq!(gpu_frames_to_frame_codes(&frames).unwrap(), vec![frame(5), frame(50)]);
    assert!(gpu_frames_to_frame_codes(&vec![]).unwrap().is_empty());
}

#[test]
fn short_frames_do_not_come_back() {
    let frames = vec![Tensor::new(&[1u32, 2], &Device::Cpu).unwrap()];
    assert!(matches!(gpu_frames_to_frame_codes(&frames), Err(TtsError::BadFrame)));
}

#[test]
fn unlike_frames_cannot_be_stacked() {
    let frames = vec![
        Tensor::new(frame(5).as_slice(), &Device::Cpu).unwrap(),
        Tensor::new(&[1u32, 2], &Device::Cpu).unwrap(),
    ];
    assert!(matches!(gpu_frames_to_frame_codes(&frames), Err(TtsError::Tensor(_))));
}

#[test]
fn reference_codes_are_read_row_by_row() {
    let rows: Vec<i64> = (0..32).collect();
    let t = Tensor::from_vec(rows, (2, 16), &Device::Cpu).unwrap();
    assert_eq!(tensor_to_frame_codes(&t).unwrap(), vec![frame(0), frame(16)]);
    let flat = t.flatten_all().unwrap();
    assert!(matches!(tensor_to_frame_codes(&flat), Err(TtsError::BadShape)));
}

#[test]
fn a_codebook_is_a_column_of_the_reference() {
    let rows: Vec<i64> = (0..32).collect();
    let t = Tensor::from_vec(rows, (2, 16), &Device::Cpu).unwrap();
    let c = qwen3_tts::clone::column(&t, 3).unwrap();
    assert_eq!(c.dims(), &[2]);
    assert_eq!(c.to_vec1::<u32>().unwrap(), vec![3, 19]);
    assert!(qwen3_tts::clone::column(&t, 16).is_err());
}

#[test]
fn frames_of_the_reference_text_are_left_out() {
    assert_eq!(warmup_frames(10, 20), 7);
    assert_eq!(warmup_frames(10, 8), 7);
    assert_eq!(warmup_frames(10, 7), 0);
    assert_eq!(warmup_frames(3, 20), 0);
    assert_eq!(warmup_frames(0, 20), 0);
}

#[test]
fn reference_frames_go_before_generated_ones() {
    let all = combine(vec![frame(0)], &vec![frame(20), frame(40), frame(60)], 1);
    assert_eq!(all, vec![frame(0), frame(40), frame(60)]);
    assert_eq!(copy_frames(&all), all);
}

#[test]
fn the_reference_has_its_share_of_the_samples() {
    assert_eq!(reference_cut(2, 1000, 10), 200);
    assert_eq!(reference_cut(1, 1000, 3), 333);
    assert_eq!(reference_cut(0, 1000, 3), 0);
    assert_eq!(reference_cut(3, 1000, 3), 1000);
    assert_eq!(reference_cut(0, 0, 0), 0);
    assert_eq!(reference_cut(usize::MAX, usize::MAX, usize::MAX), usize::MAX);
}

#[test]
fn audio_is_cut_at_the_front() {
    let audio = AudioBuffer::new(vec![1, 2, 3, 4], 24000);
    let rest = audio.without_first(3);
    assert_eq!(rest.samples, vec![4]);
    assert_eq!(rest.sample_rate, 24000);
    assert!(audio.without_first(4).is_empty());
    assert_eq!(audio.copy().samples, audio.samples);
}

#[test]
fn one_column_becomes_minus_infinity() {
    let logits = grid(2, 3, vec![1.0, 2.0, 3.0, 4.0, 5.0, 6.0]);
    let out = floats(&suppress_column(&logits, 1).unwrap());
    assert_eq!(out, vec![1.0, f32::NEG_INFINITY, 3.0, 4.0, f32::NEG_INFINITY, 6.0]);
    assert!(matches!(suppress_column(&logits, 3), Err(TtsError::EosOutsideVocabulary)));
    assert!(matches!(suppress_column(&line(&[1.0]), 0), Err(TtsError::BadShape)));
    let doubles = logits.to_dtype(CandleType::F64).unwrap();
    assert!(matches!(suppress_column(&doubles, 0), Err(TtsError::BadShape)));
}

#[test]
fn the_end_is_held_back_until_there_are_enough_tokens() {
    let mut config = SynthesisOptions::default().to_gen_config();
    config.eos_token_id = Some(2);
    let logits = grid(1, 3, vec![0.5, 0.25, 9.0]);
    for count in [0, 1] {
        let held = hold_back_eos(logits.clone(), &config, count).unwrap();
        assert_eq!(floats(&held), vec![0.5, 0.25, f32::NEG_INFINITY]);
    }
    let free = hold_back_eos(logits.clone(), &config, 2).unwrap();
    assert_eq!(floats(&free), vec![0.5, 0.25, 9.0]);
    config.eos_token_id = None;
    let free = hold_back_eos(logits, &config, 0).unwrap();
    assert_eq!(floats(&free), vec![0.5, 0.25, 9.0]);
}

#[test]
fn logits_lose_their_middle_axis() {
    let raw = Tensor::new(&[[[1.5f64, 2.5]]], &Device::Cpu).unwrap();
    let logits = to_logits(&raw).unwrap();
    assert_eq!(logits.dims(), &[1, 2]);
    assert_eq!(logits.dtype(), CandleType::F32);
    assert_eq!(floats(&logits), vec![1.5, 2.5]);
    assert!(to_logits(&line(&[1.0])).is_err());
}

#[test]
fn the_first_number_is_the_token() {
    let t = Tensor::new(&[[42u32, 7]], &Device::Cpu).unwrap();
    assert_eq!(sampled_token(&t).unwrap(), 42);
    let none = Tensor::zeros((0,), CandleType::U32, &Device::Cpu).unwrap();
    assert!(matches!(sampled_token(&none), Err(TtsError::EmptyToken)));
    assert!(sampled_token(&line(&[1.0])).is_err());
}

#[test]
fn the_last_position_is_found() {
    let t = Tensor::from_vec(vec![1f32, 2.0, 3.0, 4.0, 5.0, 6.0], (1, 3, 2), &Device::Cpu).unwrap();
    let (last, n) = last_position(&t).unwrap();
    assert_eq!(n, 3);
    assert_eq!(last.dims(), &[1, 1, 2]);
    assert_eq!(floats(&last), vec![5.0, 6.0]);
    let none = Tensor::zeros((1, 0, 2), CandleType::F32, &Device::Cpu).unwrap();
    assert!(matches!(last_position(&none), Err(TtsError::EmptyPrefill)));
    assert!(matches!(last_position(&line(&[1.0])), Err(TtsError::BadShape)));
}

#[test]
fn a_frame_is_the_token_and_its_acoustic_codes() {
    let acoustic = Tensor::new(frame(100)[1..].to_vec().as_slice(), &Device::Cpu).unwrap();
    let token = Tensor::new(&[[100u32]], &Device::Cpu).unwrap();
    let a = frame_from_tensor(&token, &acoustic).unwrap();
    let b = frame_from_id(100, &acoustic, &Device::Cpu).unwrap();
    assert_eq!(a.to_vec1::<u32>().unwrap(), frame(100));
    assert_eq!(b.to_vec1::<u32>().unwrap(), frame(100));
    let two = Tensor::new(&[1u32, 2], &Device::Cpu).unwrap();
    assert!(frame_from_tensor(&two, &acoustic).is_err());
    assert!(matches!(frame_from_tensor(&line(&[1.0]), &acoustic), Err(TtsError::BadShape)));
}

#[test]
fn text_is_fused_position_by_position() {
    let semantic = Tensor::new(&[[[1f32, 2.0]]], &Device::Cpu).unwrap();
    let acoustic = Tensor::new(&[[[10f32, 20.0]]], &Device::Cpu).unwrap();
    let trailing = Tensor::new(&[[[100f32, 200.0], [300.0, 400.0]]], &Device::Cpu).unwrap();
    let pad = Tensor::new(&[[[0.5f32, 0.25]]], &Device::Cpu).unwrap();
    let at = |i| floats(&step_input(&semantic, &acoustic, &trailing, 2, &pad, i).unwrap());
    assert_eq!(at(0), vec![111.0, 222.0]);
    assert_eq!(at(1), vec![311.0, 422.0]);
    assert_eq!(at(2), vec![11.5, 22.25]);
    assert_eq!(at(9), vec![11.5, 22.25]);
    let whole = Tensor::new(&[1u32], &Device::Cpu).unwrap();
    assert!(matches!(step_input(&whole, &whole, &trailing, 0, &pad, 0), Err(TtsError::NotFloat)));
}

#[test]
fn tensor_operations_do_what_they_say() {
    let a = grid(2, 3, vec![1.0, 2.0, 3.0, 4.0, 5.0, 6.0]);
    assert_eq!(floats(&part(&a, 1, 1, 2).unwrap()), vec![2.0, 3.0, 5.0, 6.0]);
    assert!(part(&a, 1, 2, 2).is_err());
    assert!(matches!(part(&a, 1, usize::MAX, 2), Err(TtsError::Overflow)));
    assert_eq!(flat(&a).unwrap().dims(), &[6]);
    assert_eq!(shaped(&a, &vec![3, 2]).unwrap().dims(), &[3, 2]);
    assert!(shaped(&a, &vec![4, 2]).is_err());
    assert!(matches!(shaped(&a, &vec![usize::MAX, 2]), Err(TtsError::Overflow)));
    let b = grid(2, 1, vec![7.0, 8.0]);
    let joined = concat2(&a, &b, 1).unwrap();
    assert_eq!(joined.dims(), &[2, 4]);
    assert_eq!(floats(&joined), vec![1.0, 2.0, 3.0, 7.0, 4.0, 5.0, 6.0, 8.0]);
    assert!(concat2(&a, &b, 0).is_err());
    assert!(qwen3_tts::ops::concat(&vec![], 0).is_err());
    assert_eq!(pile(&vec![b.clone(), b.clone()]).unwrap().dims(), &[2, 2, 1]);
    assert_eq!(floats(&sum(&b, &b).unwrap()), vec![14.0, 16.0]);
    assert!(sum(&a, &b).is_err());
    let whole = cast(&Tensor::new(&[3i64, 4], &Device::Cpu).unwrap(), DType::U32).unwrap();
    assert_eq!(numbers(&whole).unwrap(), vec![3, 4]);
    assert!(matches!(sum(&whole, &whole), Err(TtsError::NotFloat)));
    assert!(is_countable(&vec![usize::MAX / 16]));
    assert!(!is_countable(&vec![usize::MAX / 16, 2]));
    assert!(!is_countable(&vec![0, usize::MAX]));
}

#[test]
fn padding_and_what_comes_later_is_masked() {
    let masks = vec![token_positions(3, 3), token_positions(2, 3)];
    assert_eq!(masks, vec![vec![true, true, true], vec![false, true, true]]);
    let t = build_batched_causal_mask(&masks, 3, &Device::Cpu).unwrap();
    assert_eq!(t.dims(), &[2, 1, 3, 3]);
    let n = f32::NEG_INFINITY;
    assert_eq!(
        floats(&t),
        vec![
            0.0, n, n, 0.0, 0.0, n, 0.0, 0.0, 0.0, //
            n, n, n, n, 0.0, n, n, 0.0, 0.0,
        ]
    );
}

#[test]
fn prompts_are_padded_at_the_left() {
    let short = Tensor::new(&[[[1f32, 2.0]]], &Device::Cpu).unwrap();
    let long = Tensor::new(&[[[3f32, 4.0], [5.0, 6.0], [7.0, 8.0]]], &Device::Cpu).unwrap();
    assert_eq!(longest(&vec![short.clone(), long.clone(), line(&[1.0])]), 3);
    let padded = pad_left(&short, 3, 2, &Device::Cpu).unwrap();
    assert_eq!(padded.dims(), &[1, 3, 2]);
    assert_eq!(floats(&padded), vec![0.0, 0.0, 0.0, 0.0, 1.0, 2.0]);
    let same = pad_left(&long, 3, 2, &Device::Cpu).unwrap();
    assert_eq!(floats(&same), vec![3.0, 4.0, 5.0, 6.0, 7.0, 8.0]);
}

#[test]
fn the_greatest_logits_are_chosen() {
    let logits = grid(2, 3, vec![0.0, 2.0, 1.0, f32::NEG_INFINITY, -5.0, -7.0]);
    let (t, ids) = choose_codes(&logits, 2).unwrap();
    assert_eq!(ids, vec![1, 1]);
    let each = each_of(&t, 2).unwrap();
    assert_eq!(each[1].to_scalar::<u32>().unwrap(), 1);
    assert!(each[1].dims().is_empty());
    assert!(matches!(choose_codes(&logits, 3), Err(TtsError::BadBatch)));
    assert!(matches!(choose_codes(&line(&[1.0]), 1), Err(TtsError::BadShape)));
}

#[test]
fn a_single_column_is_chosen() {
    let column = Tensor::new(&[1.0f32, 2.0, 3.0], &Device::Cpu).unwrap().reshape((3, 1)).unwrap();
    let wide = column.broadcast_as((3, 5)).unwrap();
    let narrow = wide.narrow(1, 2, 1).unwrap();
    let (t, ids) = choose_codes(&narrow, 3).unwrap();
    assert_eq!(ids, vec![0, 0, 0]);
    assert_eq!(t.dims(), &[3]);
}

#[test]
fn views_without_cells_are_read() {
    let all = Tensor::new(&[1u32, 2, 3, 4], &Device::Cpu).unwrap().reshape((2, 2)).unwrap();
    let none = all.narrow(0, 2, 0).unwrap().narrow(1, 1, 1).unwrap();
    assert_eq!(none.dims(), &[0, 1]);
    assert!(tensor_to_frame_codes(&none).unwrap().is_empty());
    assert!(numbers(&none).unwrap().is_empty());
    let some = all.narrow(1, 0, 1).unwrap();
    let both = concat2(&some, &none, 0).unwrap();
    assert_eq!(both.dims(), &[2, 1]);
    assert_eq!(numbers(&both).unwrap(), vec![1, 3]);
    let piled = pile(&vec![none.clone(), none.clone()]).unwrap();
    assert_eq!(piled.dims(), &[2, 0, 1]);
    let floats = cast(&none, DType::F32).unwrap();
    assert_eq!(floats.dtype(), CandleType::F32);
    let held = suppress_column(&floats, 0).unwrap();
    assert_eq!(held.dims(), &[0, 1]);
}

#[test]
fn of_equal_logits_the_first_is_chosen() {
    let logits = grid(2, 3, vec![1.0, 4.0, 4.0, -0.0, 0.0, -1.0]);
    let (_, ids) = choose_codes(&logits, 2).unwrap();
    assert_eq!(ids, vec![1, 0]);
}

#[test]
fn logits_that_are_no_number_are_passed_over() {
    let nan = f32::NAN;
    let logits = grid(3, 3, vec![1.0, nan, 2.0, nan, 5.0, 6.0, 3.0, nan, 3.0]);
    let (_, ids) = choose_codes(&logits, 3).unwrap();
    // A row that starts with one is not looked at any further.
    assert_eq!(ids, vec![2, 0, 0]);
}

#[test]
fn rows_are_taken_one_by_one() {
    let a = grid(2, 3, vec![1.0, 2.0, 3.0, 4.0, 5.0, 6.0]);
    let rows = rows_of(&a, 2).unwrap();
    assert_eq!(rows[1].dims(), &[1, 3]);
    assert_eq!(floats(&rows[1]), vec![4.0, 5.0, 6.0]);
    assert!(rows_of(&a, 3).is_err());
}

#[test]
fn frames_are_appended_to_their_sequences() {
    let mut codes = vec![vec![frame(0)], vec![], vec![]];
    append_frames(&mut codes, &vec![0, 2], &vec![frame(20), frame(40)]);
    assert_eq!(codes, vec![vec![frame(0), frame(20)], vec![], vec![frame(40)]]);
    assert_eq!(non_empty(&codes), vec![0, 2]);
    assert_eq!(longest_codes(&codes, &vec![0, 2]), 2);
    let t = batch_tensor(&codes, &vec![0, 2], 2, &Device::Cpu).unwrap();
    assert_eq!(t.dims(), &[2, 16, 2]);
    let vals: Vec<i64> = t.flatten_all().unwrap().to_vec1().unwrap();
    assert_eq!(&vals[..4], &[0, 20, 1, 21]);
    assert_eq!(&vals[32..36], &[40, 0, 41, 0]);
}

#[test]
fn what_padding_gave_is_trimmed() {
    let wave: Vec<f32> = (0..2 * 4000).map(|i| i as f32).collect();
    let t = Tensor::from_vec(wave, (2, 1, 4000), &Device::Cpu).unwrap();
    let one = trimmed(&t, 1, 1).unwrap();
    assert_eq!(one.dims(), &[1920]);
    assert_eq!(floats(&one)[0], 4000.0);
    assert_eq!(floats(&one)[1919], 5919.0);
    assert_eq!(trimmed(&t, 0, 3).unwrap().dims(), &[4000]);
    assert_eq!(trimmed(&t, 0, usize::MAX).unwrap().dims(), &[4000]);
    assert!(trimmed(&t, 2, 1).is_err());
}
