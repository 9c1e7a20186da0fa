//! The main interface: what a model can do, and how each synthesis starts.
use crate::audio::AudioBuffer;
use crate::batch::all_values;
use crate::batch_prompt::{BatchItem, BatchPrefill, PromptPhase};
use crate::batch_stream::{BatchStreaming, StreamStage};
use crate::batch_synth::{BatchStage, BatchSynthesis, BatchTurn};
use crate::clone::{ClonePhase, ClonePrefill, VoiceClonePrompt};
use crate::codes::{codes_grid, copy_frames, fit_codebooks, frames_to_tensor, values};
use crate::device::{compute_dtype_for_device, dtype_for};
use crate::error::{CloneHint, TtsError};
use crate::generation::marked;
use crate::generator::empty_mask;
use crate::grid::DType;
use crate::options::{options_or_default, GenerationConfig, SynthesisOptions};
use crate::prefill::{Prefill, PrefillPhase, Voice};
use crate::request::{CodecTokens, Language, Request, Speaker};
use crate::session::{StartStage, StreamingStart};
use crate::synth::{Stage, Synthesis};
use crate::tensor::{
    copy, copy_device, device_location, grid, has_cell, tensor_dtype,
};
use crate::text::words;
use crate::voice_prompt::{same_audio, VoicePrompting, VoiceTurn};
use candle_core::{Device, Tensor};
use vstd::prelude::*;

verus! {

/// The variants of the model.
#[derive(Clone, Copy, Debug, PartialEq, Eq, Structural)]
pub enum ModelType {
    /// Clones voices from reference audio.
    Base,
    /// Has preset speakers.
    CustomVoice,
    /// Takes described voices.
    VoiceDesign,
}

/// A text of a batch, its language and its options.
pub type BatchRequest = (String, Language, Option<SynthesisOptions>);

/// Main TTS interface: what is known of a loaded model.
///
/// Each synthesis is a machine: it asks the model for one thing after the other
/// and takes up the replies.
pub struct Qwen3TTS {
    /// Detected model variant, or `None` if loaded without a configuration file.
    pub model_type: Option<ModelType>,
    /// Whether there is a speaker encoder for voice cloning.
    pub speaker_encoder: bool,
    /// Whether there is a speech encoder for in-context voice cloning.
    pub speech_encoder: bool,
    /// Device to run inference on.
    pub device: Device,
    /// Element type in which talker and code predictor compute.
    pub compute_dtype: DType,
    /// Width of the talker's embeddings.
    pub hidden_size: usize,
    pub tokens: CodecTokens,
}

/// The advice that goes with a missing speaker encoder.
pub open spec fn clone_hint(model_type: Option<ModelType>) -> CloneHint {
    match model_type {
        Some(ModelType::CustomVoice) => CloneHint::PresetSpeakers,
        Some(ModelType::VoiceDesign) => CloneHint::DescribedVoices,
        _ => CloneHint::CheckWeights,
    }
}

/// That a synthesis starts with the prompt of this text.
pub open spec fn starts_with(
    device: Device,
    text: Seq<char>,
    config: GenerationConfig,
    r: (Synthesis, Request),
) -> bool {
    &&& r.0.wf()
    &&& r.0.device == device
    &&& r.0.reference is None
    &&& r.0.stage matches Stage::Prefill(p)
    &&& p.config == config
    &&& p.phase is Encoding
    &&& r.1 matches Request::Encode(s)
    &&& s@ == text
}

/// The voice with which a synthesis starts.
pub open spec fn starts_as(r: (Synthesis, Request), voice: Voice) -> bool {
    r.0.stage matches Stage::Prefill(p) && p.phase == PrefillPhase::Encoding(voice)
}

/// That a synthesis starts with the prompt of this text in a cloned voice.
pub open spec fn starts_clone(
    model: Qwen3TTS,
    text: Seq<char>,
    prompt: VoiceClonePrompt,
    language: Language,
    options: SynthesisOptions,
    r: (Synthesis, Request),
) -> bool {
    &&& r.0.wf()
    &&& r.0.device == model.device
    &&& r.0.reference is Some <==> prompt.in_context()
    &&& r.0.reference matches Some(n) ==> n.codes == prompt.ref_codes->0 && n.text_ids@
        == prompt.ref_text_ids->0@
    &&& r.0.stage matches Stage::Clone(c)
    &&& c.options == options
    &&& c.compute_dtype == model.compute_dtype
    &&& c.speaker_embedding == prompt.speaker_embedding
    &&& c.reference is Some <==> prompt.in_context()
    &&& c.reference matches Some(n) ==> n.codes == prompt.ref_codes->0 && n.text_ids@
        == prompt.ref_text_ids->0@
    &&& c.language == language
    &&& c.phase == ClonePhase::Encoding
    &&& r.1 matches Request::Encode(s)
    &&& s@ == text
}

/// That these are the texts of a batch, with their voices.
pub open spec fn are_items(
    requests: Seq<BatchRequest>,
    prompts: Seq<Option<&VoiceClonePrompt>>,
    items: Seq<BatchItem>,
) -> bool {
    &&& items.len() == requests.len()
    &&& forall|i: int|
        0 <= i < items.len() ==> {
            let item = #[trigger] items[i];
            &&& item.text@ == requests[i].0@
            &&& item.language == requests[i].1
            &&& item.embedding == match voice_of(prompts, i) {
                Some(p) => Some(p.speaker_embedding),
                None => None,
            }
        }
}

/// How many frames each text of a batch may have.
pub open spec fn batch_limits(requests: Seq<BatchRequest>) -> Seq<usize> {
    Seq::new(
        requests.len(),
        |i: int| options_or_default(requests[i].2).batch_frames(words(requests[i].0@)) as usize,
    )
}

/// The token that ends each text of a batch, if one does.
pub open spec fn batch_ends(requests: Seq<BatchRequest>) -> Seq<Option<u32>> {
    Seq::new(requests.len(), |i: int| options_or_default(requests[i].2).eos_token_id)
}

/// What the generation of each text of a streamed batch goes by.
pub open spec fn stream_configs(requests: Seq<BatchRequest>) -> Seq<GenerationConfig> {
    Seq::new(requests.len(), |i: int| options_or_default(requests[i].2).gen_config())
}

/// The voice of one text of a batch, if one is cloned for it.
pub open spec fn voice_of(prompts: Seq<Option<&VoiceClonePrompt>>, i: int) -> Option<VoiceClonePrompt> {
    if i < prompts.len() {
        match prompts[i] {
            Some(p) => Some(*p),
            None => None,
        }
    } else {
        None
    }
}

impl Qwen3TTS {
    /// The talker computes as the device has it.
    pub open spec fn wf(self) -> bool {
        self.compute_dtype == dtype_for(device_location(self.device))
    }

    /// A model with these components.
    pub fn new(
        model_type: Option<ModelType>,
        speaker_encoder: bool,
        speech_encoder: bool,
        device: Device,
        hidden_size: usize,
        tokens: CodecTokens,
    ) -> (r: Qwen3TTS)
        ensures
            r.wf(),
            r == (Qwen3TTS {
                model_type,
                speaker_encoder,
                speech_encoder,
                device,
                compute_dtype: r.compute_dtype,
                hidden_size,
                tokens,
            }),
    {
        let compute_dtype = compute_dtype_for_device(&device);
        Qwen3TTS {
            model_type,
            speaker_encoder,
            speech_encoder,
            device,
            compute_dtype,
            hidden_size,
            tokens,
        }
    }

    /// Returns the detected model type, or `None` if loaded without a
    /// configuration file.
    pub fn model_type(&self) -> (r: Option<&ModelType>)
        ensures
            match (r, self.model_type) {
                (Some(a), Some(b)) => *a == b,
                (None, None) => true,
                _ => false,
            },
    {
        match &self.model_type {
            Some(t) => Some(t),
            None => None,
        }
    }

    /// Whether this model supports voice cloning (Base models with speaker encoder).
    pub fn supports_voice_cloning(&self) -> (r: bool)
        ensures
            r == self.speaker_encoder,
    {
        self.speaker_encoder
    }

    /// Whether this model supports preset speaker selection (CustomVoice models).
    ///
    /// When the variant is unknown, returns `true` as a permissive default.
    pub fn supports_preset_speakers(&self) -> (r: bool)
        ensures
            r == (self.model_type is None || self.model_type == Some(ModelType::CustomVoice)),
    {
        match self.model_type {
            Some(ModelType::CustomVoice) => true,
            Some(ModelType::Base) | Some(ModelType::VoiceDesign) => false,
            None => true,
        }
    }

    /// Whether this model supports voice design (text-described voices).
    pub fn supports_voice_design(&self) -> (r: bool)
        ensures
            r == (self.model_type == Some(ModelType::VoiceDesign)),
    {
        match self.model_type {
            Some(ModelType::VoiceDesign) => true,
            _ => false,
        }
    }

    /// Returns `true` if a speech encoder is loaded (in-context voice cloning is
    /// available).
    pub fn has_speech_encoder(&self) -> (r: bool)
        ensures
            r == self.speech_encoder,
    {
        self.speech_encoder
    }

    /// Get the device this model is running on.
    pub fn device(&self) -> (r: &Device)
        ensures
            *r == self.device,
    {
        &self.device
    }

    /// Update a penalty mask `[1, vocab]` for a single token: its place becomes
    /// one, and a token beyond the vocabulary changes nothing.
    pub fn update_penalty_mask(penalty_mask: &mut Tensor, token_id: u32, vocab_size: usize) -> (r: Result<
        (),
        TtsError,
    >)
        ensures
            r is Ok ==> grid(*final(penalty_mask)) == marked(
                grid(*old(penalty_mask)),
                token_id,
                vocab_size,
            ),
            r is Err ==> *final(penalty_mask) == *old(penalty_mask),
            token_id >= vocab_size ==> r is Ok && *final(penalty_mask) == *old(penalty_mask),
            grid(*old(penalty_mask)).at_hand() && has_cell(
                grid(*old(penalty_mask)),
                0,
                token_id as usize,
            ) && tensor_dtype(*old(penalty_mask)) == DType::F32 ==> r is Ok,
    {
        crate::generation::update_penalty_mask(penalty_mask, token_id, vocab_size)
    }

    /// Convert frame codes to a tensor `[1, 16, num_frames]`.
    pub fn codes_to_tensor(&self, codes: &[Vec<u32>]) -> (r: Result<Tensor, TtsError>)
        requires
            fit_codebooks(values(codes@)),
            codes@.len() * 256 <= usize::MAX,
        ensures
            device_location(self.device) is Cpu ==> r is Ok,
            r matches Err(e) ==> e is Tensor,
            r matches Ok(t) ==> grid(t) == codes_grid(values(codes@), device_location(self.device)),
    {
        crate::codes::codes_to_tensor(codes, &self.device)
    }

    /// Decode raw frame codes to audio at 24kHz.
    pub fn decode_codes(&self, codes: &[Vec<u32>]) -> (r: Result<(Synthesis, Request), TtsError>)
        ensures
            r matches Ok((s, ask)) ==> {
                &&& s.wf()
                &&& s.device == self.device
                &&& s.reference is None
                &&& s.stage matches Stage::Decoding { codes: kept, cut }
                &&& values(kept@) == values(codes@)
                &&& cut is None
                &&& ask matches Request::Decode(t)
                &&& grid(t) == codes_grid(values(codes@), device_location(self.device))
            },
            (r matches Err(e) && e is BadFrame) <==> !fit_codebooks(values(codes@)),
            fit_codebooks(values(codes@)) && codes@.len() * 256 <= usize::MAX && device_location(
                self.device,
            ) is Cpu ==> r is Ok,
    {
        let codes = copy_frames(codes);
        assert(values(codes@).len() == codes@.len());
        match frames_to_tensor(&codes, &self.device) {
            Ok(t) => {
                let device = copy_device(&self.device);
                let stage = Stage::Decoding { codes, cut: None };
                Ok((Synthesis { device, reference: None, stage }, Request::Decode(t)))
            },
            Err(e) => Err(e),
        }
    }

    /// Synthesize speech from text with default voice (Ryan, English).
    pub fn synthesize(&self, text: &str, options: Option<SynthesisOptions>) -> (r: (Synthesis, Request))
        ensures
            starts_with(self.device, text@, options_or_default(options).gen_config(), r),
            starts_as(r, Voice::Preset(Speaker::Ryan, Language::English)),
    {
        self.synthesize_with_voice(text, Speaker::Ryan, Language::English, options)
    }

    /// Synthesize speech with a specific voice and language.
    pub fn synthesize_with_voice(
        &self,
        text: &str,
        speaker: Speaker,
        language: Language,
        options: Option<SynthesisOptions>,
    ) -> (r: (Synthesis, Request))
        ensures
            starts_with(self.device, text@, options_or_default(options).gen_config(), r),
            starts_as(r, Voice::Preset(speaker, language)),
    {
        let config = SynthesisOptions::or_default(options).to_gen_config();
        let (p, ask) = Prefill::start(text.to_owned(), Voice::Preset(speaker, language), config);
        let device = copy_device(&self.device);
        (Synthesis { device, reference: None, stage: Stage::Prefill(p) }, ask)
    }

    /// Synthesize speech with per-stage timing breakdown.
    ///
    /// Same as [`synthesize_with_voice`](Self::synthesize_with_voice): the stage of
    /// the synthesis tells what the time is spent on.
    pub fn synthesize_with_timing(
        &self,
        text: &str,
        speaker: Speaker,
        language: Language,
        options: Option<SynthesisOptions>,
    ) -> (r: (Synthesis, Request))
        ensures
            starts_with(self.device, text@, options_or_default(options).gen_config(), r),
            starts_as(r, Voice::Preset(speaker, language)),
    {
        self.synthesize_with_voice(text, speaker, language, options)
    }

    /// Synthesize speech using a text-described voice (VoiceDesign model).
    pub fn synthesize_voice_design(
        &self,
        text: &str,
        instruct: &str,
        language: Language,
        options: Option<SynthesisOptions>,
    ) -> (r: (Synthesis, Request))
        ensures
            starts_with(self.device, text@, options_or_default(options).gen_config(), r),
            r.0.stage matches Stage::Prefill(p) && (p.phase matches PrefillPhase::Encoding(
                Voice::Described(i, l),
            ) && i@ == instruct@ && l == language),
    {
        let config = SynthesisOptions::or_default(options).to_gen_config();
        let voice = Voice::Described(instruct.to_owned(), language);
        let (p, ask) = Prefill::start(text.to_owned(), voice, config);
        let device = copy_device(&self.device);
        (Synthesis { device, reference: None, stage: Stage::Prefill(p) }, ask)
    }

    /// Synthesize speech using a cloned voice.
    pub fn synthesize_voice_clone(
        &self,
        text: &str,
        prompt: &VoiceClonePrompt,
        language: Language,
        options: Option<SynthesisOptions>,
    ) -> (r: (Synthesis, Request))
        requires
            self.wf(),
        ensures
            starts_clone(*self, text@, *prompt, language, options_or_default(options), r),
    {
        self.synthesize_voice_clone_debug(text, prompt, language, options)
    }

    /// Synthesize speech using a cloned voice, returning raw codes alongside audio.
    pub fn synthesize_voice_clone_debug(
        &self,
        text: &str,
        prompt: &VoiceClonePrompt,
        language: Language,
        options: Option<SynthesisOptions>,
    ) -> (r: (Synthesis, Request))
        requires
            self.wf(),
        ensures
            starts_clone(*self, text@, *prompt, language, options_or_default(options), r),
    {
        let options = SynthesisOptions::or_default(options);
        let (c, ask) = ClonePrefill::start(
            text.to_owned(),
            prompt,
            language,
            options,
            self.compute_dtype,
        );
        let device = copy_device(&self.device);
        let reference = prompt.reference();
        (Synthesis { device, reference, stage: Stage::Clone(c) }, ask)
    }

    /// Create a streaming synthesis session with a specific voice and language.
    pub fn synthesize_streaming(
        &self,
        text: &str,
        speaker: Speaker,
        language: Language,
        options: SynthesisOptions,
    ) -> (r: (StreamingStart, Request))
        ensures
            r.0.wf(),
            r.0 == (StreamingStart {
                device: self.device,
                chunk_frames: options.chunk_frames,
                stage: StartStage::Prefill(
                    Prefill {
                        config: options.gen_config(),
                        phase: PrefillPhase::Encoding(Voice::Preset(speaker, language)),
                    },
                ),
            }),
            r.1 matches Request::Encode(s) && s@ == text@,
    {
        let config = options.to_gen_config();
        let (p, ask) = Prefill::start(text.to_owned(), Voice::Preset(speaker, language), config);
        (StreamingStart::start(p, options.chunk_frames, copy_device(&self.device)), ask)
    }

    /// Synthesize speech using a text-described voice (VoiceDesign model), streaming.
    pub fn synthesize_voice_design_streaming(
        &self,
        text: &str,
        instruct: &str,
        language: Language,
        options: SynthesisOptions,
    ) -> (r: (StreamingStart, Request))
        ensures
            r.0.wf(),
            r.0.device == self.device,
            r.0.chunk_frames == options.chunk_frames,
            r.0.stage matches StartStage::Prefill(p) && p.config == options.gen_config() && (
            p.phase matches PrefillPhase::Encoding(Voice::Described(i, l)) && i@ == instruct@ && l
                == language),
            r.1 matches Request::Encode(s) && s@ == text@,
    {
        let config = options.to_gen_config();
        let voice = Voice::Described(instruct.to_owned(), language);
        let (p, ask) = Prefill::start(text.to_owned(), voice, config);
        (StreamingStart::start(p, options.chunk_frames, copy_device(&self.device)), ask)
    }

    /// Create a voice clone prompt from reference audio.
    ///
    /// When `ref_text` is `None`, the prompt holds the speaker embedding only. When
    /// it is there, the voice is cloned in context, which requires a speech encoder.
    pub fn create_voice_clone_prompt(&self, ref_audio: &AudioBuffer, ref_text: Option<&str>) -> (r:
        Result<VoiceTurn, TtsError>)
        ensures
            r is Err <==> !self.speaker_encoder,
            r matches Err(e) ==> (e matches TtsError::NoSpeakerEncoder(h) && h == clone_hint(
                self.model_type,
            )),
            r matches Ok(turn) ==> exists|audio: AudioBuffer, text: Option<String>|
                {
                    &&& #[trigger] same_audio(audio, *ref_audio)
                    &&& text is Some <==> ref_text is Some
                    &&& text matches Some(t) ==> t@ == ref_text->0@
                    &&& #[trigger] VoicePrompting::starts(self.speech_encoder, audio, text, turn)
                },
            r matches Ok(turn) ==> (turn matches VoiceTurn::Ask(next, _) && next.wf()),
    {
        if !self.speaker_encoder {
            let hint = match self.model_type {
                Some(ModelType::CustomVoice) => CloneHint::PresetSpeakers,
                Some(ModelType::VoiceDesign) => CloneHint::DescribedVoices,
                _ => CloneHint::CheckWeights,
            };
            return Err(TtsError::NoSpeakerEncoder(hint));
        }
        let audio = ref_audio.copy();
        let text = match ref_text {
            Some(t) => Some(t.to_owned()),
            None => None,
        };
        let ghost audio0 = audio;
        let ghost text0 = text;
        let turn = VoicePrompting::start(self.speech_encoder, audio, text);
        assert(same_audio(audio0, *ref_audio));
        assert(VoicePrompting::starts(self.speech_encoder, audio0, text0, turn));
        Ok(turn)
    }

    /// Batched synthesis: several texts go through the model in one pass per frame.
    pub fn synthesize_batch(&self, requests: &[BatchRequest]) -> (r: BatchTurn)
        requires
            self.wf(),
        ensures
            self.starts_batch(requests@, Seq::empty(), r),
    {
        let prompts: Vec<Option<&VoiceClonePrompt>> = Vec::new();
        assert(prompts@ =~= Seq::empty());
        self.synthesize_batch_with_voices(requests, prompts.as_slice())
    }

    /// That a batch starts so: nothing is to be done for no text, a single text is
    /// synthesized on its own, and several start with their prompts, each with its own
    /// limit and end token.
    pub open spec fn starts_batch(
        self,
        requests: Seq<BatchRequest>,
        prompts: Seq<Option<&VoiceClonePrompt>>,
        r: BatchTurn,
    ) -> bool {
        let options = options_or_default(requests[0].2);
        if requests.len() == 0 {
            r matches BatchTurn::Done(audio) && audio@.len() == 0
        } else {
            &&& r matches BatchTurn::Ask(b, ask)
            &&& b.wf()
            &&& b.compute_dtype == self.compute_dtype
            &&& b.device == self.device
            &&& if requests.len() == 1 {
                &&& b.stage matches BatchStage::Single(s)
                &&& match voice_of(prompts, 0) {
                    Some(p) => starts_clone(
                        self,
                        requests[0].0@,
                        p,
                        requests[0].1,
                        options,
                        (s, ask),
                    ),
                    None => starts_with(
                        self.device,
                        requests[0].0@,
                        options.gen_config(),
                        (s, ask),
                    ) && starts_as((s, ask), Voice::Preset(Speaker::Serena, requests[0].1)),
                }
            } else {
                &&& b.limits@ == batch_limits(requests)
                &&& b.ends@ == batch_ends(requests)
                &&& b.stage matches BatchStage::Prompts(p)
                &&& self.prompts_with(p, requests, prompts)
                &&& ask == Request::RolePrefix
                &&& all_values(b.codes@) == Seq::new(
                    requests.len(),
                    |i: int| Seq::<Seq<u32>>::empty(),
                )
            }
        }
    }

    /// That the prompts of these texts are embedded next.
    pub open spec fn prompts_with(
        self,
        p: BatchPrefill,
        requests: Seq<BatchRequest>,
        prompts: Seq<Option<&VoiceClonePrompt>>,
    ) -> bool {
        &&& p.wf()
        &&& p.tokens == self.tokens
        &&& p.compute_dtype == self.compute_dtype
        &&& p.hidden_size == self.hidden_size
        &&& p.device == self.device
        &&& are_items(requests, prompts, p.items@)
        &&& p.phase == PromptPhase::Role
    }

    /// The texts of a batch, with their voices.
    fn batch_items(requests: &[BatchRequest], prompts: &[Option<&VoiceClonePrompt>]) -> (r: Vec<
        BatchItem,
    >)
        ensures
            are_items(requests@, prompts@, r@),
    {
        let mut items: Vec<BatchItem> = Vec::new();
        let mut i: usize = 0;
        while i < requests.len()
            invariant
                i <= requests@.len(),
                are_items(requests@.take(i as int), prompts@, items@),
            decreases requests@.len() - i,
        {
            let embedding = if i < prompts.len() {
                match prompts[i] {
                    Some(p) => Some(copy(&p.speaker_embedding)),
                    None => None,
                }
            } else {
                None
            };
            let ghost before = items@;
            items.push(
                BatchItem {
                    text: requests[i].0.as_str().to_owned(),
                    language: requests[i].1,
                    embedding,
                },
            );
            proof {
                let done = requests@.take(i as int);
                let now = requests@.take(i + 1);
                assert forall|j: int| 0 <= j < items@.len() implies {
                    let item = #[trigger] items@[j];
                    &&& item.text@ == now[j].0@
                    &&& item.language == now[j].1
                    &&& item.embedding == match voice_of(prompts@, j) {
                        Some(p) => Some(p.speaker_embedding),
                        None => None,
                    }
                } by {
                    if j < i {
                        assert(items@[j] == before[j]);
                        assert(now[j] == done[j]);
                    }
                }
            }
            i = i + 1;
        }
        assert(requests@.take(requests@.len() as int) =~= requests@);
        items
    }

    /// How many frames each text of a batch may have.
    fn batch_limits_of(requests: &[BatchRequest]) -> (r: Vec<usize>)
        ensures
            r@ == batch_limits(requests@),
    {
        let mut limits: Vec<usize> = Vec::new();
        let mut i: usize = 0;
        while i < requests.len()
            invariant
                i <= requests@.len(),
                limits@ == batch_limits(requests@).take(i as int),
            decreases requests@.len() - i,
        {
            let options = SynthesisOptions::or_default(requests[i].2);
            limits.push(options.batch_limit(requests[i].0.as_str()));
            assert(limits@ =~= batch_limits(requests@).take(i + 1));
            i = i + 1;
        }
        assert(batch_limits(requests@).take(i as int) =~= batch_limits(requests@));
        limits
    }

    /// The token that ends each text of a batch, if one does.
    fn batch_ends_of(requests: &[BatchRequest]) -> (r: Vec<Option<u32>>)
        ensures
            r@ == batch_ends(requests@),
    {
        let mut ends: Vec<Option<u32>> = Vec::new();
        let mut i: usize = 0;
        while i < requests.len()
            invariant
                i <= requests@.len(),
                ends@ == batch_ends(requests@).take(i as int),
            decreases requests@.len() - i,
        {
            ends.push(SynthesisOptions::or_default(requests[i].2).eos_token_id);
            assert(ends@ =~= batch_ends(requests@).take(i + 1));
            i = i + 1;
        }
        assert(batch_ends(requests@).take(i as int) =~= batch_ends(requests@));
        ends
    }

    /// What the generation of each text of a streamed batch goes by.
    fn stream_configs_of(requests: &[BatchRequest]) -> (r: Vec<GenerationConfig>)
        ensures
            r@ == stream_configs(requests@),
    {
        let mut configs: Vec<GenerationConfig> = Vec::new();
        let mut i: usize = 0;
        while i < requests.len()
            invariant
                i <= requests@.len(),
                configs@ == stream_configs(requests@).take(i as int),
            decreases requests@.len() - i,
        {
            configs.push(SynthesisOptions::or_default(requests[i].2).to_gen_config());
            assert(configs@ =~= stream_configs(requests@).take(i + 1));
            i = i + 1;
        }
        assert(stream_configs(requests@).take(i as int) =~= stream_configs(requests@));
        configs
    }

    /// Batched synthesis with optional per-request voice clone prompts.
    ///
    /// Where there is a prompt for a text its voice is cloned; else Serena speaks.
    pub fn synthesize_batch_with_voices(
        &self,
        requests: &[BatchRequest],
        voice_prompts: &[Option<&VoiceClonePrompt>],
    ) -> (r: BatchTurn)
        requires
            self.wf(),
        ensures
            self.starts_batch(requests@, voice_prompts@, r),
    {
        if requests.len() == 0 {
            return BatchTurn::Done(Vec::new());
        }
        if requests.len() == 1 {
            let voice = if voice_prompts.len() > 0 {
                voice_prompts[0]
            } else {
                None
            };
            let text = requests[0].0.as_str();
            let language = requests[0].1;
            let (s, ask) = match voice {
                Some(p) => self.synthesize_voice_clone(text, p, language, requests[0].2),
                None => self.synthesize_with_voice(text, Speaker::Serena, language, requests[0].2),
            };
            let b = BatchSynthesis::single(s, self.compute_dtype, copy_device(&self.device));
            return BatchTurn::Ask(b, ask);
        }
        let items = Qwen3TTS::batch_items(requests, voice_prompts);
        let (p, ask) = BatchPrefill::start(
            self.tokens,
            self.compute_dtype,
            self.hidden_size,
            copy_device(&self.device),
            items,
        );
        let limits = Qwen3TTS::batch_limits_of(requests);
        let ends = Qwen3TTS::batch_ends_of(requests);
        let b = BatchSynthesis::several(
            p,
            limits,
            ends,
            self.compute_dtype,
            copy_device(&self.device),
        );
        BatchTurn::Ask(b, ask)
    }

    /// Batched streaming synthesis: chunks of each text are sent every
    /// `chunk_frames` frames. The voice is Serena, and each text goes by its own options.
    pub fn synthesize_batch_streaming(&self, requests: &[BatchRequest], chunk_frames: usize) -> (r:
        Result<(BatchStreaming, Request), TtsError>)
        requires
            self.wf(),
            requests@.len() > 0,
            chunk_frames > 0,
        ensures
            r matches Ok((s, ask)) ==> {
                &&& s.wf()
                &&& s.configs@ == stream_configs(requests@)
                &&& s.compute_dtype == self.compute_dtype
                &&& s.device == self.device
                &&& s.chunk_frames == chunk_frames
                &&& s.stage matches StreamStage::Prompts(p)
                &&& self.prompts_with(p, requests@, Seq::empty())
                &&& ask == Request::RolePrefix
                &&& all_values(s.buffers@) == Seq::new(
                    requests@.len(),
                    |i: int| Seq::<Seq<u32>>::empty(),
                )
                &&& forall|i: int|
                    0 <= i < s.masks@.len() ==> empty_mask(grid(#[trigger] s.masks@[i]))
            },
            r matches Err(e) ==> e is Tensor,
            device_location(self.device) is Cpu ==> r is Ok,
    {
        let none: Vec<Option<&VoiceClonePrompt>> = Vec::new();
        assert(none@ =~= Seq::empty());
        let items = Qwen3TTS::batch_items(requests, none.as_slice());
        let (p, ask) = BatchPrefill::start(
            self.tokens,
            self.compute_dtype,
            self.hidden_size,
            copy_device(&self.device),
            items,
        );
        let configs = Qwen3TTS::stream_configs_of(requests);
        match BatchStreaming::start(
            p,
            configs,
            self.compute_dtype,
            chunk_frames,
            copy_device(&self.device),
        ) {
            Ok(s) => Ok((s, ask)),
            Err(e) => Err(e),
        }
    }
}

} // verus!
