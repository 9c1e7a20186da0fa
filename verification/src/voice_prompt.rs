//! From reference audio to the prompt of a cloned voice.
use crate::audio::AudioBuffer;
use crate::clone::VoiceClonePrompt;
use crate::error::TtsError;
use crate::options::SAMPLE_RATE;
use crate::request::{Reply, Request};
use candle_core::Tensor;
use vstd::prelude::*;

verus! {

/// What is waited for.
pub enum VoicePhase {
    /// The audio at 24kHz.
    Resampling,
    /// The speaker embedding.
    Embedding(AudioBuffer),
    /// The codes of the reference audio.
    Coding { embedding: Tensor },
    /// The tokens of the reference text.
    Encoding { embedding: Tensor, codes: Tensor },
}

/// Makes the prompt of a cloned voice. Where there is a reference text, the voice
/// is cloned in context.
pub struct VoicePrompting {
    pub has_speech_encoder: bool,
    pub ref_text: Option<String>,
    pub phase: VoicePhase,
}

/// What is wanted next.
pub enum VoiceTurn {
    /// A reply of the model.
    Ask(VoicePrompting, Request),
    /// Nothing: this is the prompt.
    Done(VoiceClonePrompt),
}

/// Whether two buffers hold the same audio.
pub open spec fn same_audio(a: AudioBuffer, b: AudioBuffer) -> bool {
    a.samples@ == b.samples@ && a.sample_rate == b.sample_rate
}

impl VoicePrompting {
    /// Codes are only asked for where there is a text to go with them.
    pub open spec fn wf(self) -> bool {
        match self.phase {
            VoicePhase::Coding { .. } => self.ref_text is Some,
            VoicePhase::Encoding { .. } => self.ref_text is Some,
            _ => true,
        }
    }

    /// Whether this is a reply to what was asked.
    pub open spec fn awaits(self, reply: Reply) -> bool {
        match self.phase {
            VoicePhase::Resampling => reply is Audio,
            VoicePhase::Embedding(_) => reply is Tensor,
            VoicePhase::Coding { .. } => reply is Tensor,
            VoicePhase::Encoding { .. } => reply is Tokens,
        }
    }

    /// That the speaker embedding is asked for next.
    pub open spec fn embeds(self, audio: AudioBuffer, turn: VoiceTurn) -> bool {
        &&& turn matches VoiceTurn::Ask(next, Request::EmbedSpeaker(heard))
        &&& next == (VoicePrompting { phase: VoicePhase::Embedding(audio), ..self })
        &&& same_audio(heard, audio)
    }

    /// That the prompt of this audio and text starts so: audio at another rate is
    /// resampled first.
    pub open spec fn starts(
        has_speech_encoder: bool,
        audio: AudioBuffer,
        ref_text: Option<String>,
        turn: VoiceTurn,
    ) -> bool {
        let p = VoicePrompting { has_speech_encoder, ref_text, phase: VoicePhase::Resampling };
        if audio.sample_rate != SAMPLE_RATE {
            turn == VoiceTurn::Ask(p, Request::Resample(audio))
        } else {
            p.embeds(audio, turn)
        }
    }

    /// What a reply leads to.
    pub open spec fn steps(self, reply: Reply, turn: VoiceTurn) -> bool {
        match (self.phase, reply) {
            (VoicePhase::Resampling, Reply::Audio(audio)) => self.embeds(audio, turn),
            (VoicePhase::Embedding(audio), Reply::Tensor(embedding)) => {
                if self.ref_text is None {
                    turn == VoiceTurn::Done(
                        VoiceClonePrompt {
                            speaker_embedding: embedding,
                            ref_codes: None,
                            ref_text_ids: None,
                        },
                    )
                } else {
                    turn == VoiceTurn::Ask(
                        VoicePrompting { phase: VoicePhase::Coding { embedding }, ..self },
                        Request::EncodeSpeech(audio),
                    )
                }
            },
            (VoicePhase::Coding { embedding }, Reply::Tensor(codes)) => {
                &&& turn matches VoiceTurn::Ask(next, Request::Encode(text))
                &&& next == (VoicePrompting {
                    ref_text: next.ref_text,
                    phase: VoicePhase::Encoding { embedding, codes },
                    ..self
                })
                &&& next.ref_text is Some
                &&& self.ref_text matches Some(t)
                &&& text@ == t@
            },
            (VoicePhase::Encoding { embedding, codes }, Reply::Tokens(ids)) => {
                turn == VoiceTurn::Done(
                    VoiceClonePrompt {
                        speaker_embedding: embedding,
                        ref_codes: Some(codes),
                        ref_text_ids: Some(ids),
                    },
                )
            },
            _ => false,
        }
    }

    /// Start with reference audio, and with the text that it speaks where the voice
    /// is to be cloned in context.
    pub fn start(has_speech_encoder: bool, audio: AudioBuffer, ref_text: Option<String>) -> (r:
        VoiceTurn)
        ensures
            VoicePrompting::starts(has_speech_encoder, audio, ref_text, r),
            r matches VoiceTurn::Ask(next, _) && next.wf(),
    {
        if audio.sample_rate != SAMPLE_RATE {
            let phase = VoicePhase::Resampling;
            let next = VoicePrompting { has_speech_encoder, ref_text, phase };
            VoiceTurn::Ask(next, Request::Resample(audio))
        } else {
            let ask = Request::EmbedSpeaker(audio.copy());
            let phase = VoicePhase::Embedding(audio);
            VoiceTurn::Ask(VoicePrompting { has_speech_encoder, ref_text, phase }, ask)
        }
    }

    /// Take up a reply.
    pub fn step(self, reply: Reply) -> (r: Result<VoiceTurn, TtsError>)
        requires
            self.wf(),
        ensures
            r matches Ok(turn) ==> self.steps(reply, turn),
            r matches Ok(VoiceTurn::Ask(next, _)) ==> next.wf(),
            (r matches Err(e) && e is UnexpectedReply) <==> !self.awaits(reply),
            (r matches Err(e) && e is NoSpeechEncoder) <==> self.phase is Embedding && reply is Tensor
                && self.ref_text is Some && !self.has_speech_encoder,
            r matches Err(e) ==> e is UnexpectedReply || e is NoSpeechEncoder,
    {
        match (self.phase, reply) {
            (VoicePhase::Resampling, Reply::Audio(audio)) => {
                let ask = Request::EmbedSpeaker(audio.copy());
                let phase = VoicePhase::Embedding(audio);
                Ok(VoiceTurn::Ask(VoicePrompting { phase, ..self }, ask))
            },
            (VoicePhase::Embedding(audio), Reply::Tensor(embedding)) => {
                if self.ref_text.is_none() {
                    Ok(
                        VoiceTurn::Done(
                            VoiceClonePrompt {
                                speaker_embedding: embedding,
                                ref_codes: None,
                                ref_text_ids: None,
                            },
                        ),
                    )
                } else if self.has_speech_encoder {
                    let phase = VoicePhase::Coding { embedding };
                    let ask = Request::EncodeSpeech(audio);
                    Ok(VoiceTurn::Ask(VoicePrompting { phase, ..self }, ask))
                } else {
                    Err(TtsError::NoSpeechEncoder)
                }
            },
            (VoicePhase::Coding { embedding }, Reply::Tensor(codes)) => {
                let text = match &self.ref_text {
                    Some(t) => t.as_str().to_owned(),
                    None => String::new(),
                };
                let phase = VoicePhase::Encoding { embedding, codes };
                Ok(VoiceTurn::Ask(VoicePrompting { phase, ..self }, Request::Encode(text)))
            },
            (VoicePhase::Encoding { embedding, codes }, Reply::Tokens(ids)) => Ok(
                VoiceTurn::Done(
                    VoiceClonePrompt {
                        speaker_embedding: embedding,
                        ref_codes: Some(codes),
                        ref_text_ids: Some(ids),
                    },
                ),
            ),
            _ => Err(TtsError::UnexpectedReply),
        }
    }
}

} // verus!
