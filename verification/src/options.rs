//! Synthesis options, and what the generation loop makes of them.
use crate::double::{
    Double, DOUBLE_NINE_TENTHS, DOUBLE_ONE_AND_A_HALF, DOUBLE_ONE_POINT_ZERO_FIVE,
};
use crate::text::{count_words, words};
use vstd::prelude::*;

verus! {

/// The codec end-of-sequence token ID.
///
/// Generation stops when this token is sampled. It belongs to the codec
/// vocabulary, not to the text vocabulary.
pub const CODEC_EOS_TOKEN_ID: u32 = 2150;

/// The number of tokens of the codec vocabulary.
pub const CODEC_VOCAB_SIZE: usize = 3072;

/// Number of audio samples per codec frame at 24kHz (80ms per frame).
pub const SAMPLES_PER_FRAME: usize = 1920;

/// Sample rate of the generated audio.
pub const SAMPLE_RATE: u32 = 24000;

/// Positions that the caches hold beyond the frames to be generated.
pub const CACHE_MARGIN: usize = 256;

/// In-context cloning: fewest frames that are allowed, whatever the text.
pub const ICL_MIN_FRAMES: usize = 75;

/// In-context cloning: frames that are allowed per text token.
pub const ICL_FRAMES_PER_TOKEN: usize = 6;

/// In-context cloning: positions that the caches hold beyond the prompt.
pub const ICL_CACHE_MARGIN: usize = 16;

/// Batches: frames that are allowed per word of a text.
pub const BATCH_FRAMES_PER_WORD: usize = 6;

/// Batches: frames that are allowed beyond those of the words.
pub const BATCH_FRAMES_MARGIN: usize = 50;

/// Batches: frames that are allowed whatever the text.
pub const BATCH_MAX_FRAMES: usize = 512;

/// Options for speech synthesis.
#[derive(Clone, Copy, Debug, PartialEq, Eq, Structural)]
pub struct SynthesisOptions {
    /// Maximum number of frames to generate
    pub max_length: usize,
    /// Sampling temperature (higher = more random)
    pub temperature: Double,
    /// Top-k sampling
    pub top_k: usize,
    /// Top-p (nucleus) sampling
    pub top_p: Double,
    /// Repetition penalty (1.0 = disabled)
    pub repetition_penalty: Double,
    /// End-of-sequence token ID
    pub eos_token_id: Option<u32>,
    /// Frames per streaming chunk
    pub chunk_frames: usize,
    /// Minimum tokens before end-of-sequence is allowed
    pub min_new_tokens: usize,
    /// Random seed for deterministic generation. `None` = non-deterministic.
    pub seed: Option<u64>,
}

/// What the generation loop goes by.
#[derive(Clone, Copy, Debug, PartialEq, Eq, Structural)]
pub struct GenerationConfig {
    pub max_new_tokens: usize,
    pub temperature: Double,
    pub top_k: usize,
    pub top_p: Double,
    pub repetition_penalty: Double,
    pub eos_token_id: Option<u32>,
    pub min_new_tokens: usize,
    /// Random seed of the sampler.
    pub seed: Option<u64>,
}

/// The options that hold where none are given.
pub open spec fn default_options() -> SynthesisOptions {
    SynthesisOptions {
        max_length: 2048,
        temperature: Double { bits: DOUBLE_NINE_TENTHS },
        top_k: 50,
        top_p: Double { bits: DOUBLE_NINE_TENTHS },
        repetition_penalty: Double { bits: DOUBLE_ONE_POINT_ZERO_FIVE },
        eos_token_id: Some(CODEC_EOS_TOKEN_ID),
        chunk_frames: 10,
        min_new_tokens: 2,
        seed: None,
    }
}

/// The options as given, or the default ones.
pub open spec fn options_or_default(options: Option<SynthesisOptions>) -> SynthesisOptions {
    match options {
        Some(o) => o,
        None => default_options(),
    }
}

/// The lesser of two numbers.
pub open spec fn min_of(a: int, b: int) -> int {
    if a <= b {
        a
    } else {
        b
    }
}

/// The greater of two numbers.
pub open spec fn max_of(a: int, b: int) -> int {
    if a >= b {
        a
    } else {
        b
    }
}

impl Default for SynthesisOptions {
    fn default() -> (r: Self)
        ensures
            r == default_options(),
    {
        SynthesisOptions {
            max_length: 2048,
            temperature: Double { bits: DOUBLE_NINE_TENTHS },
            top_k: 50,
            top_p: Double { bits: DOUBLE_NINE_TENTHS },
            repetition_penalty: Double { bits: DOUBLE_ONE_POINT_ZERO_FIVE },
            eos_token_id: Some(CODEC_EOS_TOKEN_ID),
            chunk_frames: 10,
            min_new_tokens: 2,
            seed: None,
        }
    }
}

impl SynthesisOptions {
    /// The configuration of the generation loop under these options.
    pub open spec fn gen_config(self) -> GenerationConfig {
        GenerationConfig {
            max_new_tokens: self.max_length,
            temperature: self.temperature,
            top_k: self.top_k,
            top_p: self.top_p,
            repetition_penalty: self.repetition_penalty,
            eos_token_id: self.eos_token_id,
            min_new_tokens: self.min_new_tokens,
            seed: self.seed,
        }
    }

    /// The configuration under which a voice is cloned. In-context cloning of a
    /// text of `text_tokens` tokens limits the frames by the length of the text
    /// and penalises repetition by 1.5 at least.
    pub open spec fn clone_config(self, in_context: bool, text_tokens: nat) -> GenerationConfig {
        if in_context {
            let allowed = max_of(ICL_MIN_FRAMES as int, text_tokens * ICL_FRAMES_PER_TOKEN);
            let penalty = self.repetition_penalty;
            let floor = Double { bits: DOUBLE_ONE_AND_A_HALF };
            GenerationConfig {
                max_new_tokens: min_of(self.max_length as int, allowed) as usize,
                repetition_penalty: if !penalty.is_nan() && penalty.order() > floor.order() {
                    penalty
                } else {
                    floor
                },
                ..self.gen_config()
            }
        } else {
            self.gen_config()
        }
    }

    /// How many frames a text with so many words may have in a batch: it goes by the
    /// length of the text, and is never more than the options allow.
    pub open spec fn batch_frames(self, words: nat) -> int {
        min_of(
            self.max_length as int,
            min_of(
                BATCH_MAX_FRAMES as int,
                words * BATCH_FRAMES_PER_WORD + BATCH_FRAMES_MARGIN,
            ),
        )
    }

    /// How many frames a text may have in a batch.
    pub fn batch_limit(&self, text: &str) -> (r: usize)
        ensures
            r == self.batch_frames(words(text@)),
            r <= BATCH_MAX_FRAMES,
            r <= self.max_length,
    {
        let count = count_words(text);
        let by_text: usize = if count > BATCH_MAX_FRAMES {
            BATCH_MAX_FRAMES
        } else {
            count * BATCH_FRAMES_PER_WORD + BATCH_FRAMES_MARGIN
        };
        let allowed: usize = if by_text < BATCH_MAX_FRAMES {
            by_text
        } else {
            BATCH_MAX_FRAMES
        };
        if self.max_length < allowed {
            self.max_length
        } else {
            allowed
        }
    }

    /// Convert to a [`GenerationConfig`] for the generation loop.
    pub fn to_gen_config(&self) -> (r: GenerationConfig)
        ensures
            r == self.gen_config(),
    {
        GenerationConfig {
            max_new_tokens: self.max_length,
            temperature: self.temperature,
            top_k: self.top_k,
            top_p: self.top_p,
            repetition_penalty: self.repetition_penalty,
            eos_token_id: self.eos_token_id,
            min_new_tokens: self.min_new_tokens,
            seed: self.seed,
        }
    }

    /// Convert to a [`GenerationConfig`] for cloning a voice.
    pub fn to_clone_config(&self, in_context: bool, text_tokens: usize) -> (r: GenerationConfig)
        ensures
            r == self.clone_config(in_context, text_tokens as nat),
    {
        let mut config = self.to_gen_config();
        if in_context {
            let floor = Double { bits: DOUBLE_ONE_AND_A_HALF };
            config.repetition_penalty = self.repetition_penalty.at_least(floor);
            if let Some(by_text) = text_tokens.checked_mul(ICL_FRAMES_PER_TOKEN) {
                let allowed: usize = if by_text > ICL_MIN_FRAMES {
                    by_text
                } else {
                    ICL_MIN_FRAMES
                };
                if allowed < self.max_length {
                    config.max_new_tokens = allowed;
                }
            }
        }
        config
    }

    /// These options, or the default ones where none are given.
    pub fn or_default(options: Option<SynthesisOptions>) -> (r: SynthesisOptions)
        ensures
            r == options_or_default(options),
    {
        match options {
            Some(o) => o,
            None => SynthesisOptions::default(),
        }
    }
}

/// The greatest of several limits.
pub open spec fn greatest(limits: Seq<usize>) -> usize
    decreases limits.len(),
{
    if limits.len() == 0 {
        0
    } else {
        max_of(greatest(limits.drop_last()) as int, limits.last() as int) as usize
    }
}

/// No limit is more than the greatest.
pub proof fn lemma_greatest(limits: Seq<usize>, i: int)
    requires
        0 <= i < limits.len(),
    ensures
        limits[i] <= greatest(limits),
    decreases limits.len(),
{
    if i < limits.len() - 1 {
        assert(limits.drop_last()[i] == limits[i]);
        lemma_greatest(limits.drop_last(), i);
    }
}

/// The greatest of several limits.
pub fn greatest_of(limits: &Vec<usize>) -> (r: usize)
    ensures
        r == greatest(limits@),
{
    let mut most: usize = 0;
    let mut i: usize = 0;
    while i < limits.len()
        invariant
            i <= limits@.len(),
            most == greatest(limits@.take(i as int)),
        decreases limits@.len() - i,
    {
        proof {
            assert(limits@.take(i + 1).drop_last() =~= limits@.take(i as int));
        }
        if limits[i] > most {
            most = limits[i];
        }
        i = i + 1;
    }
    assert(limits@.take(limits@.len() as int) =~= limits@);
    most
}

/// The positions that the caches of one sequence need: the frames to be
/// generated, a margin, and what an in-context prompt adds. `None` where that is
/// no machine number.
pub fn cache_capacity(max_new_tokens: usize, extra: usize) -> (r: Option<usize>)
    ensures
        match r {
            Some(n) => n == max_new_tokens + CACHE_MARGIN + extra,
            None => max_new_tokens + CACHE_MARGIN + extra > usize::MAX,
        },
{
    match max_new_tokens.checked_add(CACHE_MARGIN) {
        Some(n) => n.checked_add(extra),
        None => None,
    }
}

/// The positions that an in-context prompt adds: the reference frames, the
/// tokens of the reference text and of the text, and a margin. `None` where that
/// is no machine number.
pub fn icl_extra(ref_frames: usize, ref_text_len: usize, text_len: usize) -> (r: Option<usize>)
    ensures
        match r {
            Some(n) => n == ref_frames + ref_text_len + text_len + ICL_CACHE_MARGIN,
            None => ref_frames + ref_text_len + text_len + ICL_CACHE_MARGIN > usize::MAX,
        },
{
    match ref_frames.checked_add(ref_text_len) {
        Some(n) => match n.checked_add(text_len) {
            Some(m) => m.checked_add(ICL_CACHE_MARGIN),
            None => None,
        },
        None => None,
    }
}

} // verus!
