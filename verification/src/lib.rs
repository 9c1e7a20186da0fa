//! Text-to-speech with Qwen3-TTS: the pipeline from a text to audio.
//!
//! The pipeline decides what the model has to do, and computes what lies between:
//! prompts, masks, frames, chunks. The model itself, with its talker, its code
//! predictor, its decoder, its encoders and its tokenizer, is outside. So each
//! synthesis is a machine that asks for one thing after the other
//! ([`Request`](request::Request)) and takes up the replies
//! ([`Reply`](request::Reply)).
//!
//! Tensors are those of `candle_core`. What its operations do is stated over
//! [`Grid`](grid::Grid), a mathematical model of tensors.
pub mod audio;
pub mod batch;
pub mod batch_decode_talks;
pub mod batch_prompt;
pub mod batch_prompt_talks;
pub mod batch_runs;
pub mod batch_start;
pub mod batch_stream;
pub mod batch_synth;
pub mod batch_synth_talks;
pub mod batch_talks;
pub mod chunk_runs;
pub mod chunks;
pub mod clone;
pub mod code_loop;
pub mod codes;
pub mod device;
pub mod double;
pub mod endings;
pub mod error;
pub mod generation;
pub mod generator;
pub mod grid;
pub mod laws;
pub mod loading;
pub mod loop_talks;
pub mod model;
pub mod ops;
pub mod options;
pub mod padding;
pub mod prefill;
pub mod request;
pub mod round;
pub mod runs;
pub mod same_runs;
pub mod sampler;
pub mod session;
pub mod session_talks;
pub mod stream_decode_talks;
pub mod stream_talks;
pub mod synth;
pub mod synth_talks;
pub mod talks;
pub mod tensor;
pub mod text;
pub mod trailing;
pub mod voice_prompt;
pub mod voice_talks;
pub mod weights;

pub use audio::AudioBuffer;
pub use clone::VoiceClonePrompt;
pub use codes::{codes_to_tensor, FrameCodes};
pub use device::{auto_device, compute_dtype_for_device, device_info, parse_device, sync_device};
pub use double::Double;
pub use error::TtsError;
pub use grid::DType;
pub use model::{ModelType, Qwen3TTS};
pub use options::{
    GenerationConfig, SynthesisOptions, CODEC_EOS_TOKEN_ID, SAMPLES_PER_FRAME,
};
pub use request::{CodecTokens, Language, Reply, Request, Speaker};
pub use session::StreamingSession;
