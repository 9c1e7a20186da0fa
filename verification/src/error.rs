//! What can go wrong in the library.
use vstd::prelude::*;

verus! {

/// Why an operation of the pipeline failed.
#[derive(Debug)]
pub enum TtsError {
    /// A tensor operation failed.
    Tensor(candle_core::Error),
    /// A reply came that the pipeline does not wait for.
    UnexpectedReply,
    /// A size is beyond what a machine number holds.
    Overflow,
    /// Elements are of a type that cannot be computed with.
    Unsupported,
    /// Numbers to be added are integers.
    NotFloat,
    /// A tensor has not the axes or the element type that it should have.
    BadShape,
    /// The prompt left no position to continue from.
    EmptyPrefill,
    /// The sampler returned no token.
    EmptyToken,
    /// A frame has not the codes of all codebooks.
    BadFrame,
    /// The end-of-sequence token is not in the vocabulary.
    EosOutsideVocabulary,
    /// Replies for another number of sequences than were asked for.
    BadBatch,
    /// The model has no speaker encoder.
    NoSpeakerEncoder(CloneHint),
    /// The model has no speech encoder.
    NoSpeechEncoder,
    /// The weights lack the tensor that tells the size of the talker.
    NoTalkerNorm,
    /// No model weights were found.
    NoModelWeights,
    /// No weights of the speech tokenizer were found.
    NoSpeechTokenizer,
}

impl TtsError {
    /// Whether computing with tensors failed: at the device, for shapes or element
    /// types that do not fit, or for want of room.
    pub open spec fn is_computing(self) -> bool {
        self is Tensor || self is Overflow || self is Unsupported
    }
}

/// Which advice goes with a missing speaker encoder.
#[derive(Clone, Copy, Debug, PartialEq, Eq, Structural)]
pub enum CloneHint {
    /// The model has preset speakers.
    PresetSpeakers,
    /// The model takes described voices.
    DescribedVoices,
    /// The weights should be looked at.
    CheckWeights,
}

} // verus!
