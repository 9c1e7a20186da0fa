//! From a text to the state in which frames can be generated, for preset
//! speakers and described voices.
use crate::error::TtsError;
use crate::generation::last_position;
use crate::options::{cache_capacity, GenerationConfig, CACHE_MARGIN};
use crate::request::{Language, Reply, Request, Speaker};
use crate::tensor::{grid, tensor_dims};
use crate::text::{frame_instruct, framed};
use crate::trailing::{TrailingText, TrailingTurn};
use candle_core::Tensor;
use vstd::prelude::*;

verus! {

/// Who speaks.
pub enum Voice {
    Preset(Speaker, Language),
    /// A voice that a text describes.
    Described(String, Language),
}

/// Who speaks, with the description tokenized.
pub enum Role {
    Preset(Speaker, Language),
    Described(Vec<u32>, Language),
}

/// What generation starts from.
pub struct Prefilled {
    pub config: GenerationConfig,
    /// Positions that the talker has seen.
    pub offset: usize,
    /// What the talker gave for the last of them.
    pub last_hidden: Tensor,
    /// The logits of the first token.
    pub logits: Tensor,
    pub trailing: Tensor,
    pub trailing_len: usize,
    pub pad: Tensor,
}

/// What the prefill waits for.
pub enum PrefillPhase {
    /// The tokens of the text.
    Encoding(Voice),
    /// The tokens of the description.
    Describing { ids: Vec<u32>, language: Language },
    /// The trailing text.
    Trailing { ids: Vec<u32>, role: Role, text: TrailingText },
    /// Empty caches.
    Caching { ids: Vec<u32>, role: Role, trailing: Tensor, len: usize, pad: Tensor },
    /// What the talker makes of the prompt.
    Running { trailing: Tensor, len: usize, pad: Tensor },
}

/// Runs the talker on the prompt of a text.
pub struct Prefill {
    pub config: GenerationConfig,
    pub phase: PrefillPhase,
}

/// What is wanted next.
pub enum PrefillTurn {
    /// A reply of the model.
    Ask(Prefill, Request),
    /// Nothing: generation can start.
    Ready(Prefilled),
}

/// The last position of what the talker gave for a prompt.
pub open spec fn is_last(hidden: Tensor, offset: usize, last: Tensor) -> bool {
    &&& tensor_dims(hidden).len() > 1
    &&& offset == tensor_dims(hidden)[1]
    &&& offset > 0
    &&& grid(last) == grid(hidden).narrow(1, (offset - 1) as usize, 1)
}

impl Prefill {
    /// Whether this is a reply to what was asked.
    pub open spec fn awaits(self, reply: Reply) -> bool {
        match self.phase {
            PrefillPhase::Encoding(_) | PrefillPhase::Describing { .. } => reply is Tokens,
            PrefillPhase::Trailing { .. } => reply is Tensor,
            PrefillPhase::Caching { .. } => reply is Done,
            PrefillPhase::Running { .. } => reply is Pair,
        }
    }

    /// Whether a reply can be taken up on the CPU.
    pub open spec fn accepts(self, reply: Reply) -> bool {
        &&& self.awaits(reply)
        &&& match (self.phase, reply) {
            (PrefillPhase::Trailing { text, .. }, _) => {
                &&& text.accepts(reply)
                &&& self.config.max_new_tokens + CACHE_MARGIN <= usize::MAX
            },
            (PrefillPhase::Running { .. }, Reply::Pair(hidden, _)) => tensor_dims(hidden).len() > 1
                && tensor_dims(hidden)[1] > 0,
            _ => true,
        }
    }

    /// That the trailing text of these tokens is built next.
    pub open spec fn builds(self, ids: Vec<u32>, role: Role, turn: PrefillTurn) -> bool {
        &&& turn matches PrefillTurn::Ask(next, ask)
        &&& next.config == self.config
        &&& next.phase matches PrefillPhase::Trailing { ids: ids1, role: role1, text }
        &&& ids1 == ids
        &&& role1 == role
        &&& TrailingText::starts(ids@, (text, ask))
    }

    /// What a reply leads to.
    pub open spec fn steps(self, reply: Reply, turn: PrefillTurn) -> bool {
        match (self.phase, reply) {
            (PrefillPhase::Encoding(Voice::Preset(speaker, language)), Reply::Tokens(ids)) => {
                self.builds(ids, Role::Preset(speaker, language), turn)
            },
            (PrefillPhase::Encoding(Voice::Described(instruct, language)), Reply::Tokens(ids)) => {
                &&& turn matches PrefillTurn::Ask(next, Request::Encode(framing))
                &&& next == (Prefill { phase: PrefillPhase::Describing { ids, language }, ..self })
                &&& framing@ == framed(instruct@)
            },
            (PrefillPhase::Describing { ids, language }, Reply::Tokens(instruct_ids)) => {
                self.builds(ids, Role::Described(instruct_ids, language), turn)
            },
            (PrefillPhase::Trailing { ids, role, text }, _) => {
                exists|t: TrailingTurn| #[trigger]
                    text.steps(reply, t) && match t {
                        TrailingTurn::Ask(text, ask) => turn == PrefillTurn::Ask(
                            Prefill { phase: PrefillPhase::Trailing { ids, role, text }, ..self },
                            ask,
                        ),
                        TrailingTurn::Built { trailing, len, pad } => turn == PrefillTurn::Ask(
                            Prefill {
                                phase: PrefillPhase::Caching { ids, role, trailing, len, pad },
                                ..self
                            },
                            Request::NewCaches((self.config.max_new_tokens + CACHE_MARGIN) as usize),
                        ),
                    }
            },
            (PrefillPhase::Caching { ids, role, trailing, len, pad }, Reply::Done) => {
                turn == PrefillTurn::Ask(
                    Prefill { phase: PrefillPhase::Running { trailing, len, pad }, ..self },
                    match role {
                        Role::Preset(speaker, language) => {
                            Request::PrefillCustomVoice { ids, speaker, language }
                        },
                        Role::Described(instruct_ids, language) => {
                            Request::PrefillVoiceDesign { ids, instruct_ids, language }
                        },
                    },
                )
            },
            (PrefillPhase::Running { trailing, len, pad }, Reply::Pair(hidden, logits)) => {
                &&& turn matches PrefillTurn::Ready(p)
                &&& p == (Prefilled {
                    config: self.config,
                    offset: p.offset,
                    last_hidden: p.last_hidden,
                    logits,
                    trailing,
                    trailing_len: len,
                    pad,
                })
                &&& is_last(hidden, p.offset, p.last_hidden)
            },
            _ => false,
        }
    }

    /// Start with this text.
    pub fn start(text: String, voice: Voice, config: GenerationConfig) -> (r: (Prefill, Request))
        ensures
            r.0 == (Prefill { config, phase: PrefillPhase::Encoding(voice) }),
            r.1 == Request::Encode(text),
    {
        (Prefill { config, phase: PrefillPhase::Encoding(voice) }, Request::Encode(text))
    }

    /// Take up a reply.
    pub fn step(self, reply: Reply) -> (r: Result<PrefillTurn, TtsError>)
        ensures
            r matches Ok(turn) ==> self.steps(reply, turn),
            r matches Ok(PrefillTurn::Ask(next, _)) ==> next.config == self.config,
            r matches Ok(PrefillTurn::Ready(p)) ==> p.config == self.config,
            (r matches Err(e) && e is UnexpectedReply) <==> !self.awaits(reply),
            (r matches Err(e) && e is EmptyPrefill) <==> self.phase is Running && (reply matches Reply::Pair(
                hidden,
                _,
            ) && tensor_dims(hidden).len() > 1 && tensor_dims(hidden)[1] == 0),
            self.accepts(reply) ==> r is Ok,
    {
        match (self.phase, reply) {
            (PrefillPhase::Encoding(Voice::Preset(speaker, language)), Reply::Tokens(ids)) => {
                let (text, ask) = TrailingText::start(&ids);
                let role = Role::Preset(speaker, language);
                let phase = PrefillPhase::Trailing { ids, role, text };
                Ok(PrefillTurn::Ask(Prefill { config: self.config, phase }, ask))
            },
            (PrefillPhase::Encoding(Voice::Described(instruct, language)), Reply::Tokens(ids)) => {
                let framing = frame_instruct(instruct.as_str());
                let phase = PrefillPhase::Describing { ids, language };
                Ok(PrefillTurn::Ask(Prefill { config: self.config, phase }, Request::Encode(framing)))
            },
            (PrefillPhase::Describing { ids, language }, Reply::Tokens(instruct_ids)) => {
                let (text, ask) = TrailingText::start(&ids);
                let role = Role::Described(instruct_ids, language);
                let phase = PrefillPhase::Trailing { ids, role, text };
                Ok(PrefillTurn::Ask(Prefill { config: self.config, phase }, ask))
            },
            (PrefillPhase::Trailing { ids, role, text }, reply) => match text.step(reply) {
                Ok(TrailingTurn::Ask(text, ask)) => {
                    let phase = PrefillPhase::Trailing { ids, role, text };
                    Ok(PrefillTurn::Ask(Prefill { config: self.config, phase }, ask))
                },
                Ok(TrailingTurn::Built { trailing, len, pad }) => {
                    match cache_capacity(self.config.max_new_tokens, 0) {
                        Some(n) => {
                            let phase = PrefillPhase::Caching { ids, role, trailing, len, pad };
                            let next = Prefill { config: self.config, phase };
                            Ok(PrefillTurn::Ask(next, Request::NewCaches(n)))
                        },
                        None => Err(TtsError::Overflow),
                    }
                },
                Err(e) => Err(e),
            },
            (PrefillPhase::Caching { ids, role, trailing, len, pad }, Reply::Done) => {
                let ask = match role {
                    Role::Preset(speaker, language) => {
                        Request::PrefillCustomVoice { ids, speaker, language }
                    },
                    Role::Described(instruct_ids, language) => {
                        Request::PrefillVoiceDesign { ids, instruct_ids, language }
                    },
                };
                let phase = PrefillPhase::Running { trailing, len, pad };
                Ok(PrefillTurn::Ask(Prefill { config: self.config, phase }, ask))
            },
            (PrefillPhase::Running { trailing, len, pad }, Reply::Pair(hidden, logits)) => {
                match last_position(&hidden) {
                    Ok((last_hidden, offset)) => Ok(
                        PrefillTurn::Ready(
                            Prefilled {
                                config: self.config,
                                offset,
                                last_hidden,
                                logits,
                                trailing,
                                trailing_len: len,
                                pad,
                            },
                        ),
                    ),
                    Err(e) => Err(e),
                }
            },
            _ => Err(TtsError::UnexpectedReply),
        }
    }
}

} // verus!
