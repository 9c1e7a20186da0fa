use qwen3_tts::text::count_words;
use qwen3_tts::double::{Double, DOUBLE_ONE, DOUBLE_ONE_AND_A_HALF};
use qwen3_tts::options::{cache_capacity, icl_extra};
use qwen3_tts::{AudioBuffer, GenerationConfig, SynthesisOptions, CODEC_EOS_TOKEN_ID};

fn double(x: f64) -> Double {
    Double { bits: x.to_bits() }
}

fn value(d: Double) -> f64 {
    f64::from_bits(d.bits)
}

#[test]
fn test_synthesis_options_default() {
    let options = SynthesisOptions::default();
    assert_eq!(options.max_length, 2048);
    assert!((value(options.temperature) - 0.9).abs() < 1e-6);
    assert_eq!(options.top_k, 50);
    assert!((value(options.top_p) - 0.9).abs() < 1e-6);
    assert!((value(options.repetition_penalty) - 1.05).abs() < 1e-6);
    assert_eq!(options.eos_token_id, Some(CODEC_EOS_TOKEN_ID));
    assert_eq!(options.chunk_frames, 10);
    assert_eq!(options.min_new_tokens, 2);
}

#[test]
fn test_synthesis_options_custom() {
    let options = SynthesisOptions {
        max_length: 512,
        temperature: double(0.5),
        top_k: 10,
        top_p: double(0.8),
        repetition_penalty: double(1.2),
        eos_token_id: Some(CODEC_EOS_TOKEN_ID),
        chunk_frames: 5,
        min_new_tokens: 0,
        seed: Some(42),
    };
    assert_eq!(options.max_length, 512);
    assert!((value(options.temperature) - 0.5).abs() < 1e-6);
    assert_eq!(options.eos_token_id, Some(CODEC_EOS_TOKEN_ID));
    assert_eq!(options.chunk_frames, 5);
}

#[test]
fn test_synthesis_options_clone() {
    let options = SynthesisOptions::default();
    let cloned = options.clone();
    assert_eq!(cloned.max_length, options.max_length);
    assert_eq!(cloned.top_k, options.top_k);
}

#[test]
fn test_synthesis_options_debug() {
    let options = SynthesisOptions::default();
    let debug_str = format!("{:?}", options);
    assert!(debug_str.contains("max_length"));
    assert!(debug_str.contains("2048"));
}

#[test]
fn test_audio_buffer_reexport() {
    let buffer = AudioBuffer::new(vec![0.0f32.to_bits(); 100], 24000);
    assert_eq!(buffer.sample_rate, 24000);
    assert_eq!(buffer.len(), 100);
    assert!(!buffer.is_empty());
}

#[test]
fn named_bits_are_those_numbers() {
    let options = SynthesisOptions::default();
    assert_eq!(value(options.temperature), 0.9);
    assert_eq!(value(options.top_p), 0.9);
    assert_eq!(value(options.repetition_penalty), 1.05);
    assert_eq!(f64::from_bits(DOUBLE_ONE), 1.0);
    assert_eq!(f64::from_bits(DOUBLE_ONE_AND_A_HALF), 1.5);
}

#[test]
fn generation_config_follows_the_options() {
    let options = SynthesisOptions {
        max_length: 7,
        temperature: double(0.25),
        top_k: 3,
        top_p: double(0.75),
        repetition_penalty: double(1.0),
        eos_token_id: None,
        chunk_frames: 5,
        min_new_tokens: 4,
        seed: Some(1),
    };
    assert_eq!(
        options.to_gen_config(),
        GenerationConfig {
            max_new_tokens: 7,
            temperature: double(0.25),
            top_k: 3,
            top_p: double(0.75),
            repetition_penalty: double(1.0),
            eos_token_id: None,
            min_new_tokens: 4,
            seed: Some(1),
        }
    );
    assert!(double(1.0).is_one());
    assert!(!double(1.05).is_one());
}

#[test]
fn cloning_in_context_limits_frames_by_the_text() {
    let options = SynthesisOptions::default();
    assert_eq!(options.to_clone_config(true, 3).max_new_tokens, 75);
    assert_eq!(options.to_clone_config(true, 13).max_new_tokens, 78);
    assert_eq!(options.to_clone_config(true, 1000).max_new_tokens, 2048);
    assert_eq!(options.to_clone_config(true, usize::MAX).max_new_tokens, 2048);
    assert_eq!(options.to_clone_config(false, 3), options.to_gen_config());
    let short = SynthesisOptions { max_length: 10, ..options };
    assert_eq!(short.to_clone_config(true, 3).max_new_tokens, 10);
}

#[test]
fn cloning_in_context_penalises_repetition() {
    let mut options = SynthesisOptions::default();
    assert_eq!(value(options.to_clone_config(true, 3).repetition_penalty), 1.5);
    options.repetition_penalty = double(2.0);
    assert_eq!(value(options.to_clone_config(true, 3).repetition_penalty), 2.0);
    options.repetition_penalty = double(-3.0);
    assert_eq!(value(options.to_clone_config(true, 3).repetition_penalty), 1.5);
    options.repetition_penalty = double(f64::NAN);
    assert_eq!(value(options.to_clone_config(true, 3).repetition_penalty), 1.5);
    options.repetition_penalty = double(f64::INFINITY);
    assert_eq!(value(options.to_clone_config(true, 3).repetition_penalty), f64::INFINITY);
}

#[test]
fn caches_have_room_for_prompt_and_frames() {
    assert_eq!(cache_capacity(2048, 0), Some(2304));
    assert_eq!(icl_extra(10, 5, 7), Some(38));
    assert_eq!(cache_capacity(75, 38), Some(369));
    assert_eq!(cache_capacity(usize::MAX, 0), None);
    assert_eq!(icl_extra(usize::MAX, 1, 0), None);
}

#[test]
fn words_limit_the_frames_in_a_batch() {
    let options = SynthesisOptions::default();
    assert_eq!(options.batch_limit(""), 50);
    assert_eq!(options.batch_limit("Hello, world!"), 62);
    assert_eq!(options.batch_limit("  one\ttwo \n three "), 68);
    assert_eq!(options.batch_limit(&"word ".repeat(77)), 512);
    assert_eq!(options.batch_limit(&"word ".repeat(1000)), 512);
    let short = SynthesisOptions { max_length: 10, ..SynthesisOptions::default() };
    assert_eq!(short.batch_limit("Hello, world!"), 10);
    let long = SynthesisOptions { max_length: 4000, ..SynthesisOptions::default() };
    assert_eq!(long.batch_limit(&"word ".repeat(1000)), 512);
}

#[test]
fn scripts_without_spaces_count_each_character() {
    assert_eq!(count_words("\u{6211}\u{559c}\u{6b22}\u{4f60}"), 4);
    assert_eq!(count_words("caf\u{e9} \u{6211}ok"), 3);
    assert_eq!(count_words("a\u{3000}b"), 2);
    assert_eq!(count_words("\u{3042}\u{30a2}"), 2);
    // Hangul puts spaces between words.
    assert_eq!(count_words("\u{c548}\u{b155} \u{c138}\u{acc4}"), 2);
}
