use candle_core::{DType as CandleType, Device, Tensor};
use qwen3_tts::batch_stream::{BatchStreaming, StreamTurn};
use qwen3_tts::batch_synth::{BatchSynthesis, BatchTurn};
use qwen3_tts::error::CloneHint;
use qwen3_tts::session::{ChunkTurn, StartTurn, StreamingStart};
use qwen3_tts::synth::{SynthTurn, Synthesis};
use qwen3_tts::voice_prompt::VoiceTurn;
use qwen3_tts::{
    AudioBuffer, CodecTokens, Double, FrameCodes, Language, ModelType, Qwen3TTS, Reply, Request,
    Speaker, StreamingSession, SynthesisOptions, TtsError, VoiceClonePrompt, CODEC_EOS_TOKEN_ID,
};

const WIDTH: usize = 4;
const VOCAB: usize = 3072;

/// A model that samples from a script and keeps a record of what it was asked.
struct Fake {
    /// The tokens to sample for each sequence.
    scripts: Vec<Vec<u32>>,
    /// How many were sampled for each sequence.
    sampled: Vec<usize>,
    /// How many rounds of logits were asked for at once.
    rounds: usize,
    /// First number of the next acoustic codes.
    acoustic: u32,
    /// Positions of an in-context prompt.
    icl_len: usize,
    fail_decode: bool,
    log: Vec<String>,
    /// Logits of end-of-sequence that the sampler saw.
    eos_logits: Vec<f32>,
    /// How many frames each decoded tensor had.
    frames_decoded: Vec<usize>,
    /// Inputs of the talker, first number each.
    inputs: Vec<f32>,
    masks: Vec<Vec<f32>>,
}

fn fake(scripts: Vec<Vec<u32>>) -> Fake {
    let n = scripts.len();
    Fake {
        scripts,
        sampled: vec![0; n],
        rounds: 0,
        acoustic: 100,
        icl_len: 5,
        fail_decode: false,
        log: Vec::new(),
        eos_logits: Vec::new(),
        frames_decoded: Vec::new(),
        inputs: Vec::new(),
        masks: Vec::new(),
    }
}

fn filled(value: f32, dims: (usize, usize, usize)) -> Tensor {
    let n = dims.0 * dims.1 * dims.2;
    Tensor::from_vec(vec![value; n], dims, &Device::Cpu).unwrap()
}

fn floats(t: &Tensor) -> Vec<f32> {
    t.flatten_all().unwrap().to_vec1().unwrap()
}

impl Fake {
    fn note(&mut self, what: &str) {
        self.log.push(what.to_string());
    }

    fn codes(&mut self) -> Tensor {
        let first = self.acoustic;
        self.acoustic += 100;
        let codes: Vec<u32> = (first..first + 15).collect();
        Tensor::new(codes.as_slice(), &Device::Cpu).unwrap()
    }

    /// Logits in which the scripted token of each sequence is the greatest.
    fn greedy(&mut self, n: usize) -> Tensor {
        let mut all = vec![0f32; n * VOCAB];
        for i in 0..n {
            let script = &self.scripts[i];
            let token = if self.rounds < script.len() {
                script[self.rounds]
            } else {
                0
            };
            all[i * VOCAB + token as usize] = 1.0;
        }
        self.rounds += 1;
        Tensor::from_vec(all, (n, 1, VOCAB), &Device::Cpu).unwrap()
    }

    fn reply(&mut self, request: Request) -> Reply {
        match request {
            Request::Encode(text) => {
                self.note(&format!("encode {}", text));
                Reply::Tokens(text.chars().map(|c| c as u32).collect())
            }
            Request::ProjectText(ids) => {
                self.note(&format!("project {}", ids.len()));
                let mut cells = Vec::new();
                for id in &ids {
                    cells.extend(vec![*id as f32; WIDTH]);
                }
                let dims = (1, ids.len(), WIDTH);
                Reply::Tensor(Tensor::from_vec(cells, dims, &Device::Cpu).unwrap())
            }
            Request::TtsEos => Reply::Tensor(filled(0.5, (1, 1, WIDTH))),
            Request::TtsPad => Reply::Tensor(filled(0.25, (1, 1, WIDTH))),
            Request::NewCaches(n) => {
                self.note(&format!("caches {}", n));
                Reply::Done
            }
            Request::NewBatchCaches(n, len) => {
                self.note(&format!("caches {} {}", n, len));
                Reply::Done
            }
            Request::NewGrowingCaches => {
                self.note("growing caches");
                Reply::Done
            }
            Request::PrefillCustomVoice { ids, speaker, language } => {
                self.note(&format!("prefill {} {:?} {:?}", ids.len(), speaker, language));
                Reply::Pair(filled(7.0, (1, 3, WIDTH)), filled(0.0, (1, 1, VOCAB)))
            }
            Request::PrefillVoiceDesign { ids, instruct_ids, language } => {
                self.note(&format!("design {} {} {:?}", ids.len(), instruct_ids.len(), language));
                Reply::Pair(filled(7.0, (1, 3, WIDTH)), filled(0.0, (1, 1, VOCAB)))
            }
            Request::PrefillVoiceClone { ids, embedding, language, in_context } => {
                self.note(&format!(
                    "clone {} {:?} {:?} {}",
                    ids.len(),
                    embedding.dims(),
                    language,
                    in_context
                ));
                Reply::Pair(filled(7.0, (1, 3, WIDTH)), filled(0.0, (1, 1, VOCAB)))
            }
            Request::EmbedSemantic(codes) => {
                let n = codes.dims()[0];
                self.note(&format!("semantic {:?}", codes.to_vec1::<u32>().unwrap()));
                Reply::Tensor(filled(1.0, (1, n, WIDTH)))
            }
            Request::EmbedGroup(group, codes) => {
                let n = codes.dims()[0];
                self.note(&format!("group {} {:?}", group, codes.to_vec1::<u32>().unwrap()));
                Reply::Tensor(filled(1.0, (1, n, WIDTH)))
            }
            Request::IclPrompt { ids, ref_text_ids, ref_embeds } => {
                self.note(&format!(
                    "icl {} {} {:?} {}",
                    ids.len(),
                    ref_text_ids.len(),
                    ref_embeds.dims(),
                    floats(&ref_embeds)[0]
                ));
                Reply::Pair(filled(2.0, (1, self.icl_len, WIDTH)), filled(3.0, (1, 2, WIDTH)))
            }
            Request::CausalMask { len, offset } => {
                self.note(&format!("mask {} {}", len, offset));
                Reply::Tensor(filled(0.0, (1, len, len + offset)))
            }
            Request::Forward { input, mask, offset } => {
                self.note(&format!("forward {:?} {} {}", input.dims(), mask.is_some(), offset));
                self.inputs.push(floats(&input)[0]);
                if let Some(m) = mask {
                    self.masks.push(floats(&m));
                }
                Reply::Tensor(input)
            }
            Request::Norm(t) => Reply::Tensor(t),
            Request::CodecHead(hidden) => {
                let n = hidden.dims()[0];
                let logits = self.greedy(n);
                Reply::Tensor(logits)
            }
            Request::EmbedToken(t) => {
                let id = t.flatten_all().unwrap().to_vec1::<u32>().unwrap()[0];
                Reply::Tensor(filled(id as f32, (1, 1, WIDTH)))
            }
            Request::Acoustic { .. } => Reply::Tensor(self.codes()),
            Request::BatchAcoustic { hiddens, embeds } => {
                assert_eq!(hiddens.dims()[0], embeds.dims()[0]);
                let n = hiddens.dims()[0];
                self.note(&format!("acoustic {}", n));
                Reply::Tensors((0..n).map(|_| self.codes()).collect())
            }
            Request::AcousticSum(_) => Reply::Tensor(filled(0.125, (1, 1, WIDTH))),
            Request::Step { input, offset } => {
                self.note(&format!("step {}", offset));
                self.inputs.push(floats(&input)[0]);
                Reply::Pair(filled(8.0, (1, 1, WIDTH)), filled(0.0, (1, 1, VOCAB)))
            }
            Request::Penalize { logits, marks, penalty } => {
                let marked: f32 = floats(&marks).iter().sum();
                self.note(&format!("penalize {} {}", marked, f64::from_bits(penalty.bits)));
                Reply::Tensor(logits)
            }
            Request::Suppress(t) => Reply::Tensor(t),
            Request::Sample { sequence, logits, .. } => {
                self.eos_logits.push(floats(&logits)[CODEC_EOS_TOKEN_ID as usize]);
                let script = &self.scripts[sequence];
                let at = self.sampled[sequence];
                let token = if at < script.len() {
                    script[at]
                } else {
                    0
                };
                self.sampled[sequence] = at + 1;
                Reply::Tensor(Tensor::new(&[token], &Device::Cpu).unwrap())
            }
            Request::RolePrefix => Reply::Tensor(filled(0.1, (1, 3, WIDTH))),
            Request::TtsPadBos(n) => Reply::Tensor(filled(0.2, (1, n + 1, WIDTH))),
            Request::EmbedCodec(t) => {
                let ids = t.to_vec1::<u32>().unwrap();
                self.note(&format!("codec {:?}", ids));
                let t = Tensor::zeros((ids.len(), WIDTH), CandleType::F32, &Device::Cpu).unwrap();
                Reply::Tensor(t)
            }
            Request::FirstText { ids, bos } => {
                assert_eq!(bos.dims(), &[1, 1, WIDTH]);
                if ids.is_empty() {
                    Reply::Maybe(None)
                } else {
                    Reply::Maybe(Some(filled(0.3, (1, 1, WIDTH))))
                }
            }
            Request::Decode(codes) => {
                if self.fail_decode {
                    return Reply::Failed;
                }
                let d = codes.dims().to_vec();
                self.note(&format!("decode {:?}", d));
                self.frames_decoded.push(d[2]);
                Reply::Tensor(filled(1.0, (d[0], 1, d[2] * 1920)))
            }
            Request::ToAudio(t, rate) => {
                let samples: Vec<u32> = floats(&t).iter().map(|x| x.to_bits()).collect();
                Reply::Audio(AudioBuffer::new(samples, rate))
            }
            Request::Resample(audio) => {
                self.note(&format!("resample {}", audio.sample_rate));
                Reply::Audio(AudioBuffer::new(audio.samples, 24000))
            }
            Request::EmbedSpeaker(audio) => {
                self.note(&format!("speaker {}", audio.sample_rate));
                Reply::Tensor(Tensor::new(&[1f32, 2.0, 3.0, 4.0], &Device::Cpu).unwrap())
            }
            Request::EncodeSpeech(audio) => {
                self.note(&format!("speech {}", audio.len()));
                Reply::Tensor(reference_codes())
            }
        }
    }
}

/// Two frames of reference codes.
fn reference_codes() -> Tensor {
    let cells: Vec<i64> = (0..32).collect();
    Tensor::from_vec(cells, (2, 16), &Device::Cpu).unwrap()
}

fn tokens() -> CodecTokens {
    CodecTokens {
        think: 11,
        think_bos: 12,
        think_eos: 13,
        pad: 14,
        bos: 15,
        serena: 16,
        english: 17,
    }
}

fn model() -> Qwen3TTS {
    Qwen3TTS::new(None, true, true, Device::Cpu, WIDTH, tokens())
}

fn run(model: &mut Fake, start: (Synthesis, Request)) -> Result<(AudioBuffer, FrameCodes), TtsError> {
    let (mut state, mut ask) = start;
    loop {
        let reply = model.reply(ask);
        match state.step(reply)? {
            SynthTurn::Ask(next, request) => {
                state = next;
                ask = request;
            }
            SynthTurn::Done { audio, codes } => return Ok((audio, codes)),
        }
    }
}

fn open(model: &mut Fake, start: (StreamingStart, Request)) -> StreamingSession {
    let (mut state, mut ask) = start;
    loop {
        let reply = model.reply(ask);
        match state.step(reply).unwrap() {
            StartTurn::Ask(next, request) => {
                state = next;
                ask = request;
            }
            StartTurn::Session(session) => return session,
        }
    }
}

fn chunk(model: &mut Fake, session: &mut StreamingSession) -> Option<AudioBuffer> {
    let mut turn = session.next_chunk().unwrap();
    loop {
        match turn {
            ChunkTurn::Ask(request) => {
                let reply = model.reply(request);
                turn = session.resume(reply).unwrap();
            }
            ChunkTurn::Chunk(audio) => return Some(audio),
            ChunkTurn::End => return None,
        }
    }
}

fn run_batch(model: &mut Fake, start: BatchTurn) -> Result<Vec<AudioBuffer>, TtsError> {
    let mut turn = start;
    loop {
        match turn {
            BatchTurn::Ask(state, ask) => {
                let state: BatchSynthesis = state;
                let reply = model.reply(ask);
                turn = state.step(reply)?;
            }
            BatchTurn::Done(audio) => return Ok(audio),
        }
    }
}

fn run_stream(model: &mut Fake, start: (BatchStreaming, Request)) -> Vec<(usize, usize)> {
    let mut chunks = Vec::new();
    let mut turn = StreamTurn::Ask(start.0, start.1);
    loop {
        match turn {
            StreamTurn::Ask(state, ask) => {
                let reply = model.reply(ask);
                turn = state.step(reply).unwrap();
            }
            StreamTurn::Chunk { sequence, audio, rest } => {
                chunks.push((sequence, audio.len()));
                turn = rest.go_on();
            }
            StreamTurn::Passed { rest, .. } => turn = rest.go_on(),
            StreamTurn::End => return chunks,
        }
    }
}

fn frame(first: u32, acoustic: u32) -> Vec<u32> {
    let mut codes = vec![first];
    codes.extend(acoustic..acoustic + 15);
    codes
}

fn options() -> SynthesisOptions {
    SynthesisOptions { max_length: 10, ..SynthesisOptions::default() }
}

fn double(x: f64) -> Double {
    Double { bits: x.to_bits() }
}

#[test]
fn a_text_becomes_frames_until_the_end() {
    let mut m = fake(vec![vec![5, 6, CODEC_EOS_TOKEN_ID]]);
    let start = model().synthesize("abc", Some(options()));
    let (audio, codes) = run(&mut m, start).unwrap();
    assert_eq!(codes, vec![frame(5, 100), frame(6, 200)]);
    assert_eq!(audio.len(), 2 * 1920);
    assert_eq!(audio.sample_rate, 24000);
    assert_eq!(
        m.log,
        vec![
            "encode abc",
            "project 2",
            "caches 266",
            "prefill 3 Ryan English",
            "penalize 0 1.05",
            "step 3",
            "penalize 1 1.05",
            "step 4",
            "penalize 2 1.05",
            "decode [1, 16, 2]",
        ]
    );
}

#[test]
fn text_is_fused_with_the_frames() {
    let mut m = fake(vec![vec![5, 6, 7, 8]]);
    let o = SynthesisOptions { max_length: 4, ..options() };
    let start = model().synthesize_with_voice("abc", Speaker::Serena, Language::Other(9), Some(o));
    let (_, codes) = run(&mut m, start).unwrap();
    assert_eq!(codes.len(), 4);
    let texts = [98.0, 99.0, 0.5, 0.25];
    let wanted: Vec<f32> = (0..4).map(|i| (5 + i) as f32 + 0.125 + texts[i]).collect();
    assert_eq!(m.inputs, wanted);
    assert_eq!(m.log[3], "prefill 3 Serena Other(9)");
}

#[test]
fn a_single_token_leaves_only_the_end_of_the_text() {
    let mut m = fake(vec![vec![5, 6]]);
    let o = SynthesisOptions { max_length: 2, ..options() };
    let start = model().synthesize_with_timing("a", Speaker::Ryan, Language::English, Some(o));
    run(&mut m, start).unwrap();
    assert_eq!(m.log[1], "caches 258");
    assert_eq!(m.inputs, vec![5.0 + 0.125 + 0.5, 6.0 + 0.125 + 0.25]);
}

#[test]
fn there_are_no_more_frames_than_allowed() {
    let mut m = fake(vec![vec![5; 50]]);
    let o = SynthesisOptions { max_length: 3, ..options() };
    let (audio, codes) = run(&mut m, model().synthesize("abc", Some(o))).unwrap();
    assert_eq!(codes.len(), 3);
    assert_eq!(audio.len(), 3 * 1920);
    assert_eq!(m.sampled[0], 4);
    let none = SynthesisOptions { max_length: 0, ..options() };
    let mut m = fake(vec![vec![5; 50]]);
    let (audio, codes) = run(&mut m, model().synthesize("abc", Some(none))).unwrap();
    assert!(codes.is_empty());
    assert!(audio.is_empty());
    assert_eq!(m.frames_decoded, vec![0]);
}

#[test]
fn the_sampler_sees_no_early_end() {
    let mut m = fake(vec![vec![5, 6, 7]]);
    let o = SynthesisOptions { max_length: 3, ..options() };
    run(&mut m, model().synthesize("abc", Some(o))).unwrap();
    let n = f32::NEG_INFINITY;
    assert_eq!(m.eos_logits, vec![n, n, 0.0, 0.0]);
}

#[test]
fn a_penalty_of_one_is_none() {
    let mut m = fake(vec![vec![CODEC_EOS_TOKEN_ID]]);
    let o = SynthesisOptions { repetition_penalty: double(1.0), ..options() };
    let (_, codes) = run(&mut m, model().synthesize("abc", Some(o))).unwrap();
    assert!(codes.is_empty());
    assert!(!m.log.iter().any(|l| l.starts_with("penalize")));
}

#[test]
fn an_end_outside_the_vocabulary_is_an_error() {
    let mut m = fake(vec![vec![5]]);
    let o = SynthesisOptions { eos_token_id: Some(5000), ..options() };
    let r = run(&mut m, model().synthesize("abc", Some(o)));
    assert!(matches!(r, Err(TtsError::EosOutsideVocabulary)));
}

#[test]
fn a_described_voice_is_framed_as_a_turn() {
    let mut m = fake(vec![vec![5, CODEC_EOS_TOKEN_ID]]);
    let start = model().synthesize_voice_design("ab", "deep", Language::English, Some(options()));
    let (_, codes) = run(&mut m, start).unwrap();
    assert_eq!(codes, vec![frame(5, 100)]);
    assert_eq!(m.log[0], "encode ab");
    assert_eq!(m.log[1], "encode <|im_start|>user\ndeep<|im_end|>\n");
    assert_eq!(m.log[4], "design 2 32 English");
}

#[test]
fn an_unexpected_reply_is_refused() {
    let (state, _) = model().synthesize("abc", None);
    assert!(matches!(state.step(Reply::Done), Err(TtsError::UnexpectedReply)));
    let (state, _) = model().synthesize_streaming("a", Speaker::Ryan, Language::English, options());
    assert!(matches!(state.step(Reply::Failed), Err(TtsError::UnexpectedReply)));
}

#[test]
fn frames_are_decoded_as_they_are() {
    let mut m = fake(vec![]);
    let codes = vec![frame(1, 2), frame(3, 4)];
    let (audio, back) = run(&mut m, model().decode_codes(&codes).unwrap()).unwrap();
    assert_eq!(back, codes);
    assert_eq!(audio.len(), 2 * 1920);
    assert!(matches!(model().decode_codes(&[vec![0; 17]]), Err(TtsError::BadFrame)));
    let t = model().codes_to_tensor(&codes).unwrap();
    assert_eq!(t.dims(), &[1, 16, 2]);
}

fn embedding_only() -> VoiceClonePrompt {
    VoiceClonePrompt {
        speaker_embedding: Tensor::new(&[1f32, 2.0, 3.0, 4.0], &Device::Cpu).unwrap(),
        ref_codes: None,
        ref_text_ids: None,
    }
}

fn in_context() -> VoiceClonePrompt {
    VoiceClonePrompt {
        ref_codes: Some(reference_codes()),
        ref_text_ids: Some(vec![1, 2, 3, 4]),
        ..embedding_only()
    }
}

#[test]
fn a_voice_is_cloned_from_its_embedding() {
    let mut m = fake(vec![vec![5, 6, CODEC_EOS_TOKEN_ID]]);
    let p = embedding_only();
    let start = model().synthesize_voice_clone("abc", &p, Language::English, Some(options()));
    let (audio, codes) = run(&mut m, start).unwrap();
    assert_eq!(codes, vec![frame(5, 100), frame(6, 200)]);
    assert_eq!(audio.len(), 2 * 1920);
    assert_eq!(
        &m.log[..4],
        &["encode abc", "caches 266", "clone 3 [4] English false", "project 2"]
    );
}

#[test]
fn a_voice_is_cloned_in_context() {
    let mut m = fake(vec![vec![5, 6, 7, CODEC_EOS_TOKEN_ID]]);
    let p = in_context();
    let start = model().synthesize_voice_clone_debug("abc", &p, Language::English, Some(options()));
    let (audio, codes) = run(&mut m, start).unwrap();
    assert_eq!(codes, vec![frame(5, 100), frame(6, 200), frame(7, 300)]);
    // Four frames are decoded: two of the reference, and the generated ones but
    // the first. Half of the samples are the reference's.
    assert_eq!(m.frames_decoded, vec![4]);
    assert_eq!(audio.len(), 2 * 1920);
    // 10 frames, 256, and 2 + 4 + 3 + 16 for the reference.
    assert_eq!(m.log[1], "caches 291");
    assert_eq!(m.log[2], "clone 3 [4] English true");
    assert_eq!(m.log[3], "semantic [0, 16]");
    assert_eq!(m.log[4], "group 0 [1, 17]");
    assert_eq!(m.log[18], "group 14 [15, 31]");
    assert_eq!(m.log[19], "icl 3 4 [1, 2, 4] 16");
    assert_eq!(m.log[20], "mask 5 3");
    assert_eq!(m.log[21], "forward [1, 5, 4] true 3");
    assert_eq!(m.log[22], "penalize 0 1.5");
    assert_eq!(m.log[23], "step 8");
}

#[test]
fn an_empty_context_leaves_the_default_text() {
    let mut m = fake(vec![vec![5, 6, CODEC_EOS_TOKEN_ID]]);
    m.icl_len = 0;
    let p = in_context();
    let start = model().synthesize_voice_clone("abc", &p, Language::English, Some(options()));
    let (_, codes) = run(&mut m, start).unwrap();
    assert_eq!(codes.len(), 2);
    assert_eq!(m.log[20], "project 2");
    assert_eq!(m.log[22], "step 3");
}

#[test]
fn no_frames_give_no_audio_in_context() {
    let mut m = fake(vec![vec![CODEC_EOS_TOKEN_ID]]);
    let p = in_context();
    let start = model().synthesize_voice_clone("abc", &p, Language::English, Some(options()));
    let (audio, codes) = run(&mut m, start).unwrap();
    assert!(codes.is_empty());
    assert!(audio.is_empty());
    assert_eq!(audio.sample_rate, 24000);
    assert!(m.frames_decoded.is_empty());
}

#[test]
fn chunks_come_as_frames_are_made() {
    let mut m = fake(vec![vec![5, 6, 7, 8, 9, CODEC_EOS_TOKEN_ID]]);
    let o = SynthesisOptions { chunk_frames: 2, ..options() };
    let start = model().synthesize_streaming("abc", Speaker::Ryan, Language::English, o);
    let mut s = open(&mut m, start);
    assert_eq!(s.frames_generated(), 0);
    assert!(!s.is_done());
    assert_eq!(chunk(&mut m, &mut s).unwrap().len(), 2 * 1920);
    assert_eq!(s.frames_generated(), 2);
    assert_eq!(chunk(&mut m, &mut s).unwrap().len(), 2 * 1920);
    assert_eq!(chunk(&mut m, &mut s).unwrap().len(), 1920);
    assert!(s.is_done());
    assert_eq!(s.frames_generated(), 5);
    assert!(chunk(&mut m, &mut s).is_none());
    assert_eq!(m.frames_decoded, vec![2, 2, 1]);
}

#[test]
fn streaming_makes_the_same_frames() {
    let script = vec![5, 6, 7, CODEC_EOS_TOKEN_ID];
    let mut whole = fake(vec![script.clone()]);
    run(&mut whole, model().synthesize("abc", Some(options()))).unwrap();
    let mut parts = fake(vec![script]);
    let o = SynthesisOptions { chunk_frames: 1, ..options() };
    let start = model().synthesize_streaming("abc", Speaker::Ryan, Language::English, o);
    let mut s = open(&mut parts, start);
    while let Some(_) = chunk(&mut parts, &mut s) {}
    assert_eq!(whole.inputs, parts.inputs);
    assert_eq!(whole.eos_logits, parts.eos_logits);
    assert_eq!(whole.frames_decoded, vec![3]);
    assert_eq!(parts.frames_decoded, vec![1, 1, 1]);
}

#[test]
fn one_chunk_is_the_whole_of_a_described_voice() {
    let script = vec![5, 6, 7, CODEC_EOS_TOKEN_ID];
    let o = SynthesisOptions { max_length: 9, chunk_frames: 9, ..options() };
    let mut whole = fake(vec![script.clone()]);
    let start = model().synthesize_voice_design("abc", "deep", Language::English, Some(o));
    let (audio, _) = run(&mut whole, start).unwrap();
    let mut parts = fake(vec![script]);
    let start = model().synthesize_voice_design_streaming("abc", "deep", Language::English, o);
    let mut s = open(&mut parts, start);
    assert_eq!(chunk(&mut parts, &mut s).unwrap().samples, audio.samples);
    assert!(chunk(&mut parts, &mut s).is_none());
    assert!(chunk(&mut parts, &mut s).is_none());
}

#[test]
fn a_smaller_limit_cuts_short() {
    let frames = |limit: usize| {
        let mut m = fake(vec![vec![5, 6, 7, 8, CODEC_EOS_TOKEN_ID]]);
        let o = SynthesisOptions { max_length: limit, ..options() };
        run(&mut m, model().synthesize("abc", Some(o))).unwrap().1
    };
    let all = frames(9);
    assert_eq!(all.len(), 4);
    assert_eq!(frames(2), all[..2].to_vec());
    assert_eq!(frames(4), all);
    assert!(frames(0).is_empty());
}

#[test]
fn equal_calls_give_equal_results() {
    let o = SynthesisOptions { seed: Some(3), ..options() };
    let call = || {
        let mut m = fake(vec![vec![5, 6, CODEC_EOS_TOKEN_ID]]);
        run(&mut m, model().synthesize("abc", Some(o))).unwrap()
    };
    let (a, b) = (call(), call());
    assert_eq!(a.0.samples, b.0.samples);
    assert_eq!(a.1, b.1);
}

#[test]
fn equal_clones_give_equal_results() {
    let o = SynthesisOptions { seed: Some(3), ..options() };
    let call = |p: &VoiceClonePrompt| {
        let mut m = fake(vec![vec![5, 6, CODEC_EOS_TOKEN_ID]]);
        let start = model().synthesize_voice_clone("abc", p, Language::English, Some(o));
        let (audio, codes) = run(&mut m, start).unwrap();
        (audio.samples, codes, m.log)
    };
    assert_eq!(call(&embedding_only()), call(&embedding_only()));
    assert_eq!(call(&in_context()), call(&in_context()));
    assert_ne!(call(&in_context()).0, call(&embedding_only()).0);
}

#[test]
fn each_text_of_a_batch_ends_at_its_own_token() {
    let end = CODEC_EOS_TOKEN_ID;
    // The first logits of each sequence come one by one, then a row for each.
    let mut m = fake(vec![vec![5, 6, 77, 6, end], vec![0, 0, 77, 6, end]]);
    let other = SynthesisOptions { eos_token_id: Some(77), ..options() };
    let requests = vec![
        ("abc".to_string(), Language::English, Some(other)),
        ("de".to_string(), Language::English, Some(options())),
    ];
    let audio = run_batch(&mut m, model().synthesize_batch(&requests)).unwrap();
    assert_eq!(audio[0].len(), 1920);
    assert_eq!(audio[1].len(), 3 * 1920);
}

#[test]
fn each_streamed_text_is_sampled_by_its_own_options() {
    let mut m = fake(vec![vec![5, 77, 5], vec![6, 77, CODEC_EOS_TOKEN_ID]]);
    let one = SynthesisOptions { eos_token_id: Some(77), seed: Some(1), ..options() };
    let two = SynthesisOptions { seed: Some(2), top_k: 9, ..options() };
    let requests = vec![
        ("abc".to_string(), Language::English, Some(one)),
        ("de".to_string(), Language::English, Some(two)),
    ];
    let (state, ask) = model().synthesize_batch_streaming(&requests, 4).unwrap();
    let mut turn = StreamTurn::Ask(state, ask);
    let mut chunks = Vec::new();
    let mut sampled = Vec::new();
    loop {
        match turn {
            StreamTurn::Ask(state, ask) => {
                if let Request::Sample { sequence, config, .. } = &ask {
                    sampled.push((*sequence, config.seed, config.top_k));
                }
                turn = state.step(m.reply(ask)).unwrap();
            }
            StreamTurn::Chunk { sequence, audio, rest } => {
                chunks.push((sequence, audio.len()));
                turn = rest.go_on();
            }
            StreamTurn::Passed { .. } => panic!("each chunk is decoded"),
            StreamTurn::End => break,
        }
    }
    assert_eq!(chunks, vec![(0, 1920), (1, 2 * 1920)]);
    let first = (0, Some(1), options().top_k);
    let second = (1, Some(2), 9);
    assert_eq!(sampled, vec![first, second, first, second, second]);
}

#[test]
fn sampling_settings_do_not_matter_in_a_batch() {
    let call = |o: SynthesisOptions| {
        let mut m = fake(vec![vec![5, 9, 6, CODEC_EOS_TOKEN_ID], vec![8, 8, 7, 7, 7]]);
        let requests = vec![
            ("abc".to_string(), Language::English, Some(o)),
            ("de".to_string(), Language::English, Some(options())),
        ];
        let audio = run_batch(&mut m, model().synthesize_batch(&requests)).unwrap();
        (audio[0].samples.clone(), audio[1].samples.clone(), m.log, m.inputs)
    };
    let other = SynthesisOptions {
        top_k: 1,
        min_new_tokens: 7,
        seed: Some(1),
        temperature: options().top_p,
        ..options()
    };
    assert_eq!(call(options()), call(other));
}

#[test]
fn a_failed_decoding_loses_one_chunk_only() {
    let mut m = fake(vec![vec![5; 20]]);
    let o = SynthesisOptions { max_length: 4, chunk_frames: 2, ..options() };
    let start = model().synthesize_streaming("abc", Speaker::Ryan, Language::English, o);
    let mut s = open(&mut m, start);
    let mut turn = s.next_chunk().unwrap();
    loop {
        match turn {
            ChunkTurn::Ask(Request::Decode(_)) => break,
            ChunkTurn::Ask(request) => {
                let reply = m.reply(request);
                turn = s.resume(reply).unwrap();
            }
            _ => panic!("the chunk is not decoded"),
        }
    }
    assert!(matches!(s.resume(Reply::Failed), Err(TtsError::UnexpectedReply)));
    assert_eq!(chunk(&mut m, &mut s).unwrap().len(), 2 * 1920);
    assert_eq!(s.frames_generated(), 4);
    assert!(chunk(&mut m, &mut s).is_none());
}

#[test]
fn a_session_that_starts_with_the_end_has_no_chunks() {
    let mut m = fake(vec![vec![CODEC_EOS_TOKEN_ID]]);
    let start =
        model().synthesize_voice_design_streaming("ab", "deep", Language::English, options());
    let mut s = open(&mut m, start);
    assert!(s.is_done());
    assert!(chunk(&mut m, &mut s).is_none());
    assert_eq!(m.log[1], "encode <|im_start|>user\ndeep<|im_end|>\n");
}

#[test]
fn a_session_with_enough_frames_is_done() {
    let mut m = fake(vec![vec![5; 20]]);
    let o = SynthesisOptions { max_length: 3, chunk_frames: 2, ..options() };
    let start = model().synthesize_streaming("abc", Speaker::Ryan, Language::English, o);
    let mut s = open(&mut m, start);
    assert_eq!(chunk(&mut m, &mut s).unwrap().len(), 2 * 1920);
    assert!(!s.is_done());
    assert_eq!(chunk(&mut m, &mut s).unwrap().len(), 1920);
    assert!(s.is_done());
    assert!(chunk(&mut m, &mut s).is_none());
    assert_eq!(s.frames_generated(), 3);
}

#[test]
fn a_chunk_that_was_given_up_keeps_its_frames() {
    let mut m = fake(vec![vec![5; 20]]);
    let o = SynthesisOptions { chunk_frames: 3, ..options() };
    let start = model().synthesize_streaming("abc", Speaker::Ryan, Language::English, o);
    let mut s = open(&mut m, start);
    let mut turn = s.next_chunk().unwrap();
    while s.frames_generated() < 2 {
        match turn {
            ChunkTurn::Ask(request) => {
                let reply = m.reply(request);
                turn = s.resume(reply).unwrap();
            }
            _ => panic!("the chunk is not full"),
        }
    }
    assert_eq!(chunk(&mut m, &mut s).unwrap().len(), 2 * 1920);
    assert!(s.is_done());
    assert!(chunk(&mut m, &mut s).is_none());
}

#[test]
fn a_wrong_reply_ends_a_session() {
    let mut m = fake(vec![vec![5; 20]]);
    let start = model().synthesize_streaming("abc", Speaker::Ryan, Language::English, options());
    let mut s = open(&mut m, start);
    assert!(matches!(s.resume(Reply::Done), Err(TtsError::UnexpectedReply)));
    s.next_chunk().unwrap();
    assert!(matches!(s.resume(Reply::Done), Err(TtsError::UnexpectedReply)));
    assert!(chunk(&mut m, &mut s).is_none());
    assert!(s.is_done());
}

#[test]
fn no_texts_give_no_audio() {
    let mut m = fake(vec![]);
    assert!(run_batch(&mut m, model().synthesize_batch(&[])).unwrap().is_empty());
}

#[test]
fn a_batch_of_one_is_a_synthesis_of_its_own() {
    let mut m = fake(vec![vec![5, CODEC_EOS_TOKEN_ID]]);
    let requests = vec![("abc".to_string(), Language::English, Some(options()))];
    let audio = run_batch(&mut m, model().synthesize_batch(&requests)).unwrap();
    assert_eq!(audio.len(), 1);
    assert_eq!(audio[0].len(), 1920);
    assert_eq!(m.log[3], "prefill 3 Serena English");
    let p = embedding_only();
    let mut m = fake(vec![vec![5, CODEC_EOS_TOKEN_ID]]);
    let start = model().synthesize_batch_with_voices(&requests, &[Some(&p)]);
    run_batch(&mut m, start).unwrap();
    assert_eq!(m.log[2], "clone 3 [4] English false");
}

#[test]
fn several_texts_are_synthesized_side_by_side() {
    let end = CODEC_EOS_TOKEN_ID;
    // The first logits of each sequence come one by one, then a row for each.
    let mut m = fake(vec![vec![5, 9, 6, 7, end], vec![8, 8, end, end, end]]);
    let requests = vec![
        ("abc".to_string(), Language::English, Some(options())),
        ("".to_string(), Language::Other(99), None),
    ];
    let p = embedding_only();
    let start = model().synthesize_batch_with_voices(&requests, &[None, Some(&p)]);
    let audio = run_batch(&mut m, start).unwrap();
    assert_eq!(audio.len(), 2);
    assert_eq!(
        m.log,
        vec![
            "codec [14, 15]",
            "encode abc",
            "codec [11, 12, 17, 13, 16, 14, 15]",
            "encode ",
            "codec [11, 12, 99, 13]",
            "caches 2 76",
            "forward [2, 10, 4] true 0",
            "project 2",
            "acoustic 2",
            "forward [2, 1, 4] false 10",
            "acoustic 1",
            "forward [2, 1, 4] false 11",
            "acoustic 1",
            "forward [2, 1, 4] false 12",
            "decode [2, 16, 3]",
        ]
    );
    // Three frames and one.
    assert_eq!(audio[0].len(), 3 * 1920);
    assert_eq!(audio[1].len(), 1920);
    // The second prompt is one position shorter, which is masked.
    let mask = &m.masks[0];
    assert_eq!(mask.len(), 2 * 10 * 10);
    assert_eq!(mask[9 * 10], 0.0);
    assert_eq!(mask[100 + 9 * 10], f32::NEG_INFINITY);
    assert_eq!(mask[100 + 9 * 10 + 1], 0.0);
    assert_eq!(mask[1], f32::NEG_INFINITY);
}

#[test]
fn a_batch_with_one_voice_left_is_decoded_alone() {
    let end = CODEC_EOS_TOKEN_ID;
    let mut m = fake(vec![vec![end, end, end], vec![8, 8, end]]);
    m.scripts[0][0] = end;
    let requests = vec![
        ("abc".to_string(), Language::English, Some(options())),
        ("de".to_string(), Language::English, None),
    ];
    // The only head that asks for one row at a time takes the script of the first
    // sequence, so its second entry is the first token of the other one.
    m.scripts[0][1] = 8;
    let audio = run_batch(&mut m, model().synthesize_batch(&requests)).unwrap();
    assert!(audio[0].is_empty());
    assert_eq!(audio[0].sample_rate, 24000);
    assert_eq!(audio[1].len(), 1920);
    assert_eq!(m.frames_decoded, vec![1]);
}

#[test]
fn nothing_is_decoded_where_all_end_at_once() {
    let end = CODEC_EOS_TOKEN_ID;
    let mut m = fake(vec![vec![end, end], vec![]]);
    let requests = vec![
        ("abc".to_string(), Language::English, Some(options())),
        ("de".to_string(), Language::English, None),
    ];
    let audio = run_batch(&mut m, model().synthesize_batch(&requests)).unwrap();
    assert!(audio[0].is_empty() && audio[1].is_empty());
    assert!(m.frames_decoded.is_empty());
}

#[test]
fn no_text_of_a_batch_gets_too_many_frames() {
    let mut m = fake(vec![vec![5; 9], vec![6; 9]]);
    let short = SynthesisOptions { max_length: 2, ..options() };
    let long = SynthesisOptions { max_length: 4, ..options() };
    let requests = vec![
        ("abc".to_string(), Language::English, Some(short)),
        ("de".to_string(), Language::English, Some(long)),
    ];
    let audio = run_batch(&mut m, model().synthesize_batch(&requests)).unwrap();
    assert_eq!(audio[0].len(), 2 * 1920);
    assert_eq!(audio[1].len(), 4 * 1920);
    assert_eq!(m.frames_decoded, vec![4]);
}

#[test]
fn too_few_acoustic_codes_are_an_error() {
    let mut m = fake(vec![vec![5, 5, 5], vec![6, 6, 6]]);
    let requests = vec![
        ("abc".to_string(), Language::English, Some(options())),
        ("de".to_string(), Language::English, None),
    ];
    let mut turn = model().synthesize_batch(&requests);
    loop {
        match turn {
            BatchTurn::Ask(state, Request::BatchAcoustic { .. }) => {
                let r = state.step(Reply::Tensors(vec![m.codes()]));
                assert!(matches!(r, Err(TtsError::BadBatch)));
                return;
            }
            BatchTurn::Ask(state, ask) => {
                let reply = m.reply(ask);
                turn = state.step(reply).unwrap();
            }
            BatchTurn::Done(_) => panic!("frames are to be made"),
        }
    }
}

#[test]
fn chunks_of_several_texts_are_sent() {
    let end = CODEC_EOS_TOKEN_ID;
    let mut m = fake(vec![vec![5, 6, 7, end], vec![8, end]]);
    let requests = vec![
        ("abc".to_string(), Language::English, None),
        ("de".to_string(), Language::English, None),
    ];
    let start = model().synthesize_batch_streaming(&requests, 2).unwrap();
    let chunks = run_stream(&mut m, start);
    assert_eq!(chunks, vec![(0, 2 * 1920), (1, 1920), (0, 1920)]);
    assert!(m.log.contains(&"growing caches".to_string()));
    // The marks of each sequence are its own.
    assert!(m.log.contains(&"penalize 3 1.05".to_string()));
    assert_eq!(m.sampled, vec![4, 2]);
}

#[test]
fn each_streamed_text_ends_at_its_own_limit() {
    let mut m = fake(vec![vec![5; 9], vec![6; 9]]);
    let one = SynthesisOptions { max_length: 1, ..options() };
    let five = SynthesisOptions { max_length: 5, ..options() };
    let requests = vec![
        ("abc".to_string(), Language::English, Some(one)),
        ("de".to_string(), Language::English, Some(five)),
    ];
    let start = model().synthesize_batch_streaming(&requests, 2).unwrap();
    let chunks = run_stream(&mut m, start);
    assert_eq!(chunks, vec![(0, 1920), (1, 2 * 1920), (1, 2 * 1920), (1, 1920)]);
}

#[test]
fn the_sampler_is_told_the_seed() {
    let o = SynthesisOptions { seed: Some(7), ..options() };
    let (mut state, mut ask) =
        model().synthesize_with_voice("abc", Speaker::Ryan, Language::English, Some(o));
    let mut m = fake(vec![vec![5, CODEC_EOS_TOKEN_ID]]);
    let mut seeds = Vec::new();
    loop {
        if let Request::Sample { config, .. } = &ask {
            seeds.push(config.seed);
        }
        match state.step(m.reply(ask)).unwrap() {
            SynthTurn::Ask(next, request) => {
                state = next;
                ask = request;
            }
            SynthTurn::Done { .. } => break,
        }
    }
    assert_eq!(seeds, vec![Some(7), Some(7)]);
}

#[test]
fn a_chunk_that_cannot_be_decoded_is_passed_over() {
    let end = CODEC_EOS_TOKEN_ID;
    let mut m = fake(vec![vec![5, 6, end], vec![8, end]]);
    m.fail_decode = true;
    let requests = vec![
        ("abc".to_string(), Language::English, None),
        ("de".to_string(), Language::English, None),
    ];
    let start = model().synthesize_batch_streaming(&requests, 1).unwrap();
    assert!(run_stream(&mut m, start).is_empty());
    assert_eq!(m.sampled, vec![3, 2]);
}

#[test]
fn frames_that_do_not_fit_are_passed_over() {
    let mut m = fake(vec![vec![5, 5, CODEC_EOS_TOKEN_ID], vec![8, CODEC_EOS_TOKEN_ID]]);
    let requests = vec![
        ("abc".to_string(), Language::English, None),
        ("de".to_string(), Language::English, None),
    ];
    let (state, ask) = model().synthesize_batch_streaming(&requests, 1).unwrap();
    let mut turn = StreamTurn::Ask(state, ask);
    let mut passed = Vec::new();
    let mut sent = Vec::new();
    loop {
        match turn {
            StreamTurn::Ask(state, ask) => {
                let wide = matches!(ask, Request::BatchAcoustic { .. });
                let reply = match m.reply(ask) {
                    Reply::Tensors(mut all) if wide && all.len() == 2 => {
                        let many: Vec<u32> = (0..20).collect();
                        all[0] = Tensor::new(many.as_slice(), &Device::Cpu).unwrap();
                        Reply::Tensors(all)
                    }
                    other => other,
                };
                turn = state.step(reply).unwrap();
            }
            StreamTurn::Chunk { sequence, rest, .. } => {
                sent.push(sequence);
                turn = rest.go_on();
            }
            StreamTurn::Passed { sequence, error, rest } => {
                assert!(matches!(error, TtsError::BadFrame));
                passed.push(sequence);
                turn = rest.go_on();
            }
            StreamTurn::End => break,
        }
    }
    assert_eq!(passed, vec![0]);
    assert_eq!(sent, vec![1, 0]);
}

fn make_prompt(model: &mut Fake, start: VoiceTurn) -> Result<VoiceClonePrompt, TtsError> {
    let mut turn = start;
    loop {
        match turn {
            VoiceTurn::Ask(state, ask) => {
                let reply = model.reply(ask);
                turn = state.step(reply)?;
            }
            VoiceTurn::Done(prompt) => return Ok(prompt),
        }
    }
}

#[test]
fn a_prompt_is_made_of_reference_audio() {
    let audio = AudioBuffer::new(vec![0; 50], 16000);
    let mut m = fake(vec![]);
    let start = model().create_voice_clone_prompt(&audio, None).unwrap();
    let p = make_prompt(&mut m, start).unwrap();
    assert!(p.ref_codes.is_none() && p.ref_text_ids.is_none());
    assert_eq!(m.log, vec!["resample 16000", "speaker 24000"]);
    let audio = AudioBuffer::new(vec![0; 50], 24000);
    let mut m = fake(vec![]);
    let start = model().create_voice_clone_prompt(&audio, Some("hi")).unwrap();
    let p = make_prompt(&mut m, start).unwrap();
    assert_eq!(p.ref_codes.unwrap().dims(), &[2, 16]);
    assert_eq!(p.ref_text_ids.unwrap(), vec!['h' as u32, 'i' as u32]);
    assert_eq!(m.log, vec!["speaker 24000", "speech 50", "encode hi"]);
}

#[test]
fn a_prompt_needs_its_encoders() {
    let audio = AudioBuffer::new(vec![0; 50], 24000);
    let hint = |t| {
        let m = Qwen3TTS::new(t, false, true, Device::Cpu, WIDTH, tokens());
        match m.create_voice_clone_prompt(&audio, None) {
            Err(TtsError::NoSpeakerEncoder(h)) => h,
            _ => panic!("there is no speaker encoder"),
        }
    };
    assert_eq!(hint(Some(ModelType::CustomVoice)), CloneHint::PresetSpeakers);
    assert_eq!(hint(Some(ModelType::VoiceDesign)), CloneHint::DescribedVoices);
    assert_eq!(hint(Some(ModelType::Base)), CloneHint::CheckWeights);
    assert_eq!(hint(None), CloneHint::CheckWeights);
    let deaf = Qwen3TTS::new(None, true, false, Device::Cpu, WIDTH, tokens());
    let start = deaf.create_voice_clone_prompt(&audio, Some("hi")).unwrap();
    let r = make_prompt(&mut fake(vec![]), start);
    assert!(matches!(r, Err(TtsError::NoSpeechEncoder)));
    let start = deaf.create_voice_clone_prompt(&audio, None).unwrap();
    assert!(make_prompt(&mut fake(vec![]), start).is_ok());
}

#[test]
fn a_model_says_what_it_supports() {
    let of = |t| Qwen3TTS::new(t, false, false, Device::Cpu, WIDTH, tokens());
    let custom = of(Some(ModelType::CustomVoice));
    assert!(custom.supports_preset_speakers());
    assert!(!custom.supports_voice_design());
    assert!(!custom.supports_voice_cloning());
    assert!(!custom.has_speech_encoder());
    assert_eq!(custom.model_type(), Some(&ModelType::CustomVoice));
    let design = of(Some(ModelType::VoiceDesign));
    assert!(!design.supports_preset_speakers());
    assert!(design.supports_voice_design());
    assert!(!of(Some(ModelType::Base)).supports_preset_speakers());
    assert!(of(None).supports_preset_speakers());
    assert!(of(None).model_type().is_none());
    assert!(model().supports_voice_cloning() && model().has_speech_encoder());
    assert!(matches!(model().device(), Device::Cpu));
}
