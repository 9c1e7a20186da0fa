//! What the prompt of a cloned voice is made of, told by what was asked and replied.
use crate::audio::AudioBuffer;
use crate::clone::VoiceClonePrompt;
use crate::request::{Reply, Request};
use crate::talks::Talk;
use crate::voice_prompt::{VoicePhase, VoicePrompting, VoiceTurn};
use candle_core::Tensor;
use vstd::prelude::*;

verus! {

/// The making of a prompt as far as it has come, with what was asked and replied.
pub struct VoiceTalk {
    /// The state in which each request waits for its reply.
    pub states: Seq<VoicePrompting>,
    pub talk: Talk,
}

impl VoiceTalk {
    /// Whether each reply leads from one request to the next, and the first one is what
    /// a prompt of this audio and text starts with.
    pub open spec fn wf(self, has_speech_encoder: bool, audio: AudioBuffer, text: Option<String>) -> bool {
        &&& self.states.len() == self.talk.asked.len()
        &&& self.talk.replies.len() + 1 == self.talk.asked.len()
        &&& VoicePrompting::starts(
            has_speech_encoder,
            audio,
            text,
            VoiceTurn::Ask(self.states[0], self.talk.asked[0]),
        )
        &&& forall|i: int|
            0 <= i < self.talk.replies.len() ==> self.states[i].steps(
                #[trigger] self.talk.replies[i],
                VoiceTurn::Ask(self.states[i + 1], self.talk.asked[i + 1]),
            )
    }
}

/// That the encoders are given this audio: the reference itself where its rate is 24kHz,
/// and what came of resampling it where its rate is another one.
pub open spec fn is_heard(talk: Talk, reference: AudioBuffer, heard: AudioBuffer) -> bool {
    if reference.sample_rate == 24000 {
        heard.sample_rate == 24000 && heard.samples@ == reference.samples@
    } else {
        &&& talk.asked[0] matches Request::Resample(given)
        &&& given.sample_rate == reference.sample_rate
        &&& given.samples@ == reference.samples@
        &&& talk.replies[0] matches Reply::Audio(resampled)
        &&& heard.sample_rate == resampled.sample_rate
        &&& heard.samples@ == resampled.samples@
    }
}

/// That the making of a prompt waits for the reply to the request at place `k`.
spec fn has_come(talk: Talk, k: int, audio: AudioBuffer, text: Option<String>, p: VoicePrompting) -> bool {
    &&& p.ref_text is Some <==> text is Some
    &&& match p.phase {
        VoicePhase::Resampling => {
            &&& k == 0
            &&& audio.sample_rate != 24000
            &&& talk.asked[0] matches Request::Resample(given)
            &&& given.sample_rate == audio.sample_rate
            &&& given.samples@ == audio.samples@
            &&& p.ref_text == text
        },
        VoicePhase::Embedding(heard) => {
            &&& talk.asked[k] matches Request::EmbedSpeaker(a)
            &&& is_heard(talk, audio, a)
            &&& is_heard(talk, audio, heard)
            &&& audio.sample_rate == 24000 <==> k == 0
            &&& p.ref_text == text
        },
        VoicePhase::Coding { embedding } => {
            &&& 0 < k
            &&& talk.asked[k] matches Request::EncodeSpeech(a)
            &&& is_heard(talk, audio, a)
            &&& audio.sample_rate != 24000 ==> 1 < k
            &&& talk.asked[k - 1] is EmbedSpeaker
            &&& talk.replies[k - 1] == Reply::Tensor(embedding)
            &&& p.ref_text == text
            &&& text is Some
        },
        VoicePhase::Encoding { embedding, codes } => {
            &&& 1 < k
            &&& text matches Some(t)
            &&& talk.asked[k] matches Request::Encode(asked)
            &&& asked@ == t@
            &&& talk.asked[k - 1] is EncodeSpeech
            &&& talk.replies[k - 1] == Reply::Tensor(codes)
            &&& talk.asked[k - 2] is EmbedSpeaker
            &&& talk.replies[k - 2] == Reply::Tensor(embedding)
        },
    }
}

/// The states have come to what was asked and replied.
proof fn lemma_run(run: VoiceTalk, has_speech_encoder: bool, audio: AudioBuffer, text: Option<String>, k: int)
    requires
        run.wf(has_speech_encoder, audio, text),
        0 <= k < run.talk.asked.len(),
    ensures
        has_come(run.talk, k, audio, text, run.states[k]),
    decreases k,
{
    if k > 0 {
        lemma_run(run, has_speech_encoder, audio, text, k - 1);
        assert(run.states[k - 1].steps(
            run.talk.replies[k - 1],
            VoiceTurn::Ask(run.states[k - 1 + 1], run.talk.asked[k - 1 + 1]),
        ));
    }
}

/// Audio that is not at 24kHz is resampled before anything else, and each encoder is
/// given what came of it; audio at 24kHz is given to them as it is. Speech is encoded
/// only where there is a text that it speaks, and that text is what is tokenized.
pub proof fn law_reference_audio(
    run: VoiceTalk,
    has_speech_encoder: bool,
    audio: AudioBuffer,
    text: Option<String>,
    k: int,
)
    requires
        run.wf(has_speech_encoder, audio, text),
        0 <= k < run.talk.asked.len(),
    ensures
        audio.sample_rate != 24000 ==> (run.talk.asked[0] matches Request::Resample(given)
            && given.samples@ == audio.samples@ && given.sample_rate == audio.sample_rate),
        audio.sample_rate == 24000 ==> run.talk.asked[0] is EmbedSpeaker,
        match run.talk.asked[k] {
            Request::Resample(_) => k == 0 && audio.sample_rate != 24000,
            Request::EmbedSpeaker(heard) => is_heard(run.talk, audio, heard),
            Request::EncodeSpeech(heard) => text is Some && is_heard(run.talk, audio, heard),
            Request::Encode(asked) => text matches Some(t) && asked@ == t@,
            _ => false,
        },
{
    lemma_run(run, has_speech_encoder, audio, text, 0);
    lemma_run(run, has_speech_encoder, audio, text, k);
}

/// A prompt holds what the encoders gave: the speaker embedding, and where there is a
/// text, the codes of the speech and the tokens of the text.
pub proof fn law_prompt_made(
    run: VoiceTalk,
    has_speech_encoder: bool,
    audio: AudioBuffer,
    text: Option<String>,
    reply: Reply,
    prompt: VoiceClonePrompt,
)
    requires
        run.wf(has_speech_encoder, audio, text),
        run.states.last().steps(reply, VoiceTurn::Done(prompt)),
    ensures
        ({
            let n = run.talk.asked.len() - 1;
            if text is Some {
                &&& 1 < n
                &&& run.talk.asked[n - 2] is EmbedSpeaker
                &&& run.talk.replies[n - 2] == Reply::Tensor(prompt.speaker_embedding)
                &&& run.talk.asked[n - 1] is EncodeSpeech
                &&& prompt.ref_codes matches Some(codes)
                &&& run.talk.replies[n - 1] == Reply::Tensor(codes)
                &&& run.talk.asked[n] is Encode
                &&& prompt.ref_text_ids matches Some(ids)
                &&& reply == Reply::Tokens(ids)
            } else {
                &&& run.talk.asked[n] is EmbedSpeaker
                &&& reply == Reply::Tensor(prompt.speaker_embedding)
                &&& prompt.ref_codes is None
                &&& prompt.ref_text_ids is None
            }
        }),
{
    lemma_run(run, has_speech_encoder, audio, text, run.talk.asked.len() - 1);
}

} // verus!
