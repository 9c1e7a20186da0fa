//! Where a model's files are, and what its weights provide.
use crate::device::{compute_dtype_for_device, dtype_for};
use crate::error::TtsError;
use crate::grid::DType;
use crate::tensor::{device_location, tensor_dims};
use crate::weights::{has_under, norm_name, under_prefix, TalkerChoice, Weights, LARGE_HIDDEN_SIZE};
use candle_core::Device;
use vstd::prelude::*;

verus! {

/// Where the weights of the speech tokenizer are.
#[derive(Clone, Copy, Debug, PartialEq, Eq, Structural)]
pub enum SpeechTokenizerAt {
    /// Below the model's directory.
    Model,
    /// Below the directory above it.
    Parent,
}

/// Where to load the speech tokenizer from, given which files exist. The
/// directory above the model's is looked at where there is one.
pub fn locate_weights(model: bool, speech: bool, parent_speech: Option<bool>) -> (r: Result<
    SpeechTokenizerAt,
    TtsError,
>)
    ensures
        (r matches Err(e) && e is NoModelWeights) <==> !model,
        (r matches Err(e) && e is NoSpeechTokenizer) <==> model && !speech && parent_speech != Some(
            true,
        ),
        r matches Err(e) ==> e is NoModelWeights || e is NoSpeechTokenizer,
        r matches Ok(at) ==> at == if speech {
            SpeechTokenizerAt::Model
        } else {
            SpeechTokenizerAt::Parent
        },
{
    if !model {
        return Err(TtsError::NoModelWeights);
    }
    if speech {
        return Ok(SpeechTokenizerAt::Model);
    }
    match parent_speech {
        Some(true) => Ok(SpeechTokenizerAt::Parent),
        _ => Err(TtsError::NoSpeechTokenizer),
    }
}

/// Where the tokenizer comes from: its own source, or else the model's.
pub fn tokenizer_source<'a>(model_id: &'a str, tokenizer_id: Option<&'a str>) -> (r: &'a str)
    ensures
        r@ == match tokenizer_id {
            Some(id) => id@,
            None => model_id@,
        },
{
    match tokenizer_id {
        Some(id) => id,
        None => model_id,
    }
}

/// What the components of a model are built from.
pub struct Plan {
    /// Element type in which talker and code predictor compute.
    pub compute_dtype: DType,
    pub talker: TalkerChoice,
    /// The weights of the code predictor.
    pub predictor: Weights,
    /// The weights of the speaker encoder, where there are any.
    pub speaker: Option<Weights>,
    /// Element type in which the speaker encoder computes.
    pub speaker_dtype: DType,
    /// Whether there are weights of a speech encoder.
    pub speech: bool,
}

/// Plan how to build the components of a model from its weights and those of its
/// decoder. Without a configuration file the weights tell its size. The speaker
/// encoder computes in single precision on every device.
pub fn plan_components(
    model_weights: &Weights,
    decoder_weights: &Weights,
    parsed: bool,
    device: &Device,
) -> (r: Result<Plan, TtsError>)
    requires
        model_weights.wf(),
        decoder_weights.wf(),
    ensures
        r matches Ok(p) ==> {
            &&& p.compute_dtype == dtype_for(device_location(*device))
            &&& p.talker == if parsed {
                TalkerChoice::Parsed
            } else if tensor_dims(model_weights@[norm_name()])[0] == LARGE_HIDDEN_SIZE {
                TalkerChoice::CustomVoice
            } else {
                TalkerChoice::Default
            }
            &&& p.predictor.wf()
            &&& p.predictor@ == under_prefix(model_weights@, "talker.code_predictor."@)
            &&& p.speaker is Some <==> has_under(model_weights@, "speaker_encoder."@)
            &&& p.speaker matches Some(w) ==> w.wf() && w@ == under_prefix(
                model_weights@,
                "speaker_encoder."@,
            )
            &&& p.speaker_dtype == DType::F32
            &&& p.speech == (has_under(decoder_weights@, "encoder."@) || has_under(
                decoder_weights@,
                "encoder_transformer."@,
            ))
        },
        parsed ==> r is Ok,
        (r matches Err(e) && e is NoTalkerNorm) <==> !parsed && !model_weights@.contains_key(
            norm_name(),
        ),
        (r matches Err(e) && e is BadShape) <==> !parsed && model_weights@.contains_key(norm_name())
            && tensor_dims(model_weights@[norm_name()]).len() == 0,
        r matches Err(e) ==> e is NoTalkerNorm || e is BadShape,
{
    let compute_dtype = compute_dtype_for_device(device);
    let talker = if parsed {
        TalkerChoice::Parsed
    } else {
        match model_weights.detect_talker_config() {
            Ok(c) => c,
            Err(e) => {
                return Err(e);
            },
        }
    };
    let predictor = model_weights.filter_weights("talker.code_predictor.");
    let speaker = if model_weights.has_prefix("speaker_encoder.") {
        Some(model_weights.filter_weights("speaker_encoder."))
    } else {
        None
    };
    let speech = decoder_weights.has_prefix("encoder.") || decoder_weights.has_prefix(
        "encoder_transformer.",
    );
    Ok(Plan { compute_dtype, talker, predictor, speaker, speaker_dtype: DType::F32, speech })
}

} // verus!
