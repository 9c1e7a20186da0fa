use candle_core::{DType as CandleType, Device, Tensor};
use qwen3_tts::loading::{
    locate_weights, plan_components, tokenizer_source, SpeechTokenizerAt,
};
use qwen3_tts::text::{frame_instruct, has_prefix, parse_index, same_text};
use qwen3_tts::weights::{choose_predictor, PredictorChoice, TalkerChoice, Weights};
use qwen3_tts::{DType, TtsError};

fn vector(n: usize) -> Tensor {
    Tensor::zeros((n,), CandleType::F32, &Device::Cpu).unwrap()
}

fn weights(names: &[&str]) -> Weights {
    let mut w = Weights::new();
    for (i, name) in names.iter().enumerate() {
        w.add(name.to_string(), vector(i + 1));
    }
    w
}

#[test]
fn weights_are_found_by_name() {
    let mut w = weights(&["a.b", "a.c"]);
    assert_eq!(w.get("a.c").unwrap().dims(), &[2]);
    assert!(w.get("a").is_none());
    w.add("a.b".to_string(), vector(9));
    assert_eq!(w.get("a.b").unwrap().dims(), &[9]);
    assert_eq!(w.entries.len(), 2);
}

#[test]
fn filtered_weights_lose_their_prefix() {
    let w = weights(&["x.y.one", "x.z.two", "q.x.y.three", "x.y."]);
    let f = w.filter_weights("x.y.");
    assert_eq!(f.entries.len(), 2);
    assert_eq!(f.get("one").unwrap().dims(), &[1]);
    assert_eq!(f.get("").unwrap().dims(), &[4]);
    let twice = w.filter_weights("x.").filter_weights("y.");
    assert_eq!(twice.get("one").unwrap().dims(), &[1]);
    assert_eq!(twice.entries.len(), 2);
    assert_eq!(w.filter_weights("none").entries.len(), 0);
    assert!(w.has_prefix("q."));
    assert!(!w.has_prefix("y."));
}

#[test]
fn the_width_of_the_talker_is_detected() {
    let mut w = Weights::new();
    assert!(matches!(w.detect_talker_config(), Err(TtsError::NoTalkerNorm)));
    w.add("talker.model.norm.weight".to_string(), vector(2048));
    assert_eq!(w.detect_talker_config().unwrap(), TalkerChoice::CustomVoice);
    w.add("talker.model.norm.weight".to_string(), vector(1024));
    assert_eq!(w.detect_talker_config().unwrap(), TalkerChoice::Default);
    let scalar = Tensor::new(1f32, &Device::Cpu).unwrap();
    w.add("talker.model.norm.weight".to_string(), scalar);
    assert!(matches!(w.detect_talker_config(), Err(TtsError::BadShape)));
}

#[test]
fn the_code_predictor_follows_the_talker() {
    assert_eq!(choose_predictor(true, 2048), PredictorChoice::Parsed);
    assert_eq!(choose_predictor(false, 2048), PredictorChoice::Wide(2048));
    assert_eq!(choose_predictor(false, 1024), PredictorChoice::Default);
}

#[test]
fn the_weights_tell_the_components() {
    let base = weights(&[
        "talker.model.norm.weight",
        "talker.code_predictor.a",
        "speaker_encoder.b",
    ]);
    let decoder = weights(&["decoder.x", "encoder.y"]);
    let plan = plan_components(&base, &decoder, false, &Device::Cpu).unwrap();
    assert_eq!(plan.compute_dtype, DType::F32);
    assert_eq!(plan.speaker_dtype, DType::F32);
    assert_eq!(plan.talker, TalkerChoice::Default);
    assert_eq!(plan.predictor.get("a").unwrap().dims(), &[2]);
    assert_eq!(plan.speaker.unwrap().get("b").unwrap().dims(), &[3]);
    assert!(plan.speech);
    let plain = weights(&["talker.code_predictor.a"]);
    let deaf = weights(&["decoder.encoder.x"]);
    let plan = plan_components(&plain, &deaf, true, &Device::Cpu).unwrap();
    assert_eq!(plan.talker, TalkerChoice::Parsed);
    assert!(plan.speaker.is_none());
    assert!(!plan.speech);
    let other = weights(&["encoder_transformer.x"]);
    assert!(plan_components(&plain, &other, true, &Device::Cpu).unwrap().speech);
    let r = plan_components(&plain, &deaf, false, &Device::Cpu);
    assert!(matches!(r, Err(TtsError::NoTalkerNorm)));
}

#[test]
fn weights_are_looked_for_in_order() {
    assert!(matches!(locate_weights(false, true, None), Err(TtsError::NoModelWeights)));
    assert_eq!(locate_weights(true, true, Some(true)).unwrap(), SpeechTokenizerAt::Model);
    assert_eq!(locate_weights(true, false, Some(true)).unwrap(), SpeechTokenizerAt::Parent);
    let missing = locate_weights(true, false, Some(false));
    assert!(matches!(missing, Err(TtsError::NoSpeechTokenizer)));
    assert!(matches!(locate_weights(true, false, None), Err(TtsError::NoSpeechTokenizer)));
}

#[test]
fn the_tokenizer_has_its_own_source() {
    assert_eq!(tokenizer_source("model", None), "model");
    assert_eq!(tokenizer_source("model", Some("other")), "other");
}

#[test]
fn texts_are_compared_character_by_character() {
    assert!(same_text("größe", "größe"));
    assert!(!same_text("a", "ab"));
    assert!(has_prefix("größe", "grö"));
    assert!(!has_prefix("gr", "grö"));
    assert_eq!(parse_index("cuda:12", 5), Some(12));
    assert_eq!(parse_index("cuda:", 5), None);
    assert_eq!(frame_instruct("x"), "<|im_start|>user\nx<|im_end|>\n");
}
