//! What the pipeline asks of the model, and what the model replies.
use crate::audio::AudioBuffer;
use crate::double::Double;
use crate::options::GenerationConfig;
use candle_core::Tensor;
use vstd::prelude::*;

verus! {

/// A preset speaker.
#[derive(Clone, Copy, Debug, PartialEq, Eq, Structural)]
pub enum Speaker {
    Ryan,
    Serena,
    /// Another one, by its codec token.
    Other(u32),
}

/// A language to speak.
#[derive(Clone, Copy, Debug, PartialEq, Eq, Structural)]
pub enum Language {
    English,
    /// Another one, by its codec token.
    Other(u32),
}

/// Tokens of the codec vocabulary that lay out a prompt.
#[derive(Clone, Copy, Debug, PartialEq, Eq, Structural)]
pub struct CodecTokens {
    pub think: u32,
    pub think_bos: u32,
    pub think_eos: u32,
    pub pad: u32,
    pub bos: u32,
    /// The speaker Serena.
    pub serena: u32,
    /// The language English.
    pub english: u32,
}

impl Language {
    /// The codec token of a language.
    pub open spec fn token(self, tokens: CodecTokens) -> u32 {
        match self {
            Language::English => tokens.english,
            Language::Other(id) => id,
        }
    }

    /// The codec token of a language.
    pub fn token_id(&self, tokens: &CodecTokens) -> (r: u32)
        ensures
            r == self.token(*tokens),
    {
        match self {
            Language::English => tokens.english,
            Language::Other(id) => *id,
        }
    }
}

/// A task for the model. The talker, the code predictor, the decoder, the
/// encoders, the tokenizer and the sampler belong to the model, and so do the
/// caches in which the talker keeps what it has seen.
pub enum Request {
    /// Tokenize a text.
    Encode(String),
    /// Embed text tokens and project them.
    ProjectText(Vec<u32>),
    /// The embedding that ends a text.
    TtsEos,
    /// The embedding that stands for no text.
    TtsPad,
    /// Start with empty caches for so many positions.
    NewCaches(usize),
    /// Start with empty caches for so many sequences and positions.
    NewBatchCaches(usize, usize),
    /// Start with empty caches that grow.
    NewGrowingCaches,
    /// Run the talker on a text for a preset speaker.
    PrefillCustomVoice { ids: Vec<u32>, speaker: Speaker, language: Language },
    /// Run the talker on a text for a described voice.
    PrefillVoiceDesign { ids: Vec<u32>, instruct_ids: Vec<u32>, language: Language },
    /// Run the talker on a text for a cloned voice.
    PrefillVoiceClone { ids: Vec<u32>, embedding: Tensor, language: Language, in_context: bool },
    /// Embed the semantic codes of reference frames.
    EmbedSemantic(Tensor),
    /// Embed the codes of one acoustic codebook of reference frames.
    EmbedGroup(usize, Tensor),
    /// Lay out a text, a reference text and reference frames as a prompt.
    IclPrompt { ids: Vec<u32>, ref_text_ids: Vec<u32>, ref_embeds: Tensor },
    /// A causal mask for so many positions behind so many others.
    CausalMask { len: usize, offset: usize },
    /// Run all layers of the talker.
    Forward { input: Tensor, mask: Option<Tensor>, offset: usize },
    /// Normalize what the layers gave.
    Norm(Tensor),
    /// Logits of the semantic codes.
    CodecHead(Tensor),
    /// Embed a semantic code.
    EmbedToken(Tensor),
    /// Predict the acoustic codes of a frame.
    Acoustic { hidden: Tensor, embed: Tensor },
    /// Predict the acoustic codes of one frame of each sequence.
    BatchAcoustic { hiddens: Tensor, embeds: Tensor },
    /// The sum of the embeddings of acoustic codes.
    AcousticSum(Tensor),
    /// Run the talker on one more position.
    Step { input: Tensor, offset: usize },
    /// Penalize the logits of codes that are marked.
    Penalize { logits: Tensor, marks: Tensor, penalty: Double },
    /// Suppress the logits of codes that are no audio, but for end-of-sequence.
    Suppress(Tensor),
    /// Sample a code for a sequence.
    Sample { sequence: usize, logits: Tensor, config: GenerationConfig },
    /// The embedding of the role that speaks.
    RolePrefix,
    /// So many embeddings of no text, and the one that starts a text.
    TtsPadBos(usize),
    /// Embed codec tokens.
    EmbedCodec(Tensor),
    /// The first text token fused with the token that starts a codec sequence.
    FirstText { ids: Vec<u32>, bos: Tensor },
    /// Decode codes into a waveform.
    Decode(Tensor),
    /// Read a waveform as audio with this sample rate.
    ToAudio(Tensor, u32),
    /// Resample audio to 24kHz.
    Resample(AudioBuffer),
    /// The embedding of a speaker.
    EmbedSpeaker(AudioBuffer),
    /// The codes of speech.
    EncodeSpeech(AudioBuffer),
}

/// What the model replies.
pub enum Reply {
    /// The caches are there.
    Done,
    /// Tokens of a text.
    Tokens(Vec<u32>),
    /// A tensor.
    Tensor(Tensor),
    /// What the layers gave and its logits, or a prompt and the text left over.
    Pair(Tensor, Tensor),
    /// A tensor for each sequence that was asked for.
    Tensors(Vec<Tensor>),
    /// A tensor, or nothing.
    Maybe(Option<Tensor>),
    /// Audio.
    Audio(AudioBuffer),
    /// That it could not be done.
    Failed,
}

} // verus!
