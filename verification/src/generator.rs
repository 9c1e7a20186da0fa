//! The autoregressive loop: from a semantic token to a frame to the next token.

use crate::error::TtsError;
use crate::generation::{
    are_logits, fuses_on_cpu, held_back, hold_back_eos, is_fused, marked, sampled_token, step_input, text_for,
    to_logits, update_penalty_mask,
};
use crate::grid::{lemma_shape2, DType, Grid};
use crate::options::{GenerationConfig, CODEC_VOCAB_SIZE};
use crate::prefill::Prefilled;
use crate::request::{Reply, Request};
use crate::tensor::{
    copy, device_location, grid, tensor_cells, tensor_dims, tensor_dtype, tensor_location, zeros,
};
use candle_core::{Device, Tensor};
use vstd::prelude::*;

verus! {

/// What the generator waits for.
pub enum Phase {
    /// The logits after the penalty for repetition.
    Penalizing,
    /// The logits without codes that are no audio.
    Suppressing,
    /// A semantic token.
    Sampling,
    /// The word to make a frame of this token.
    Ready { id: u32, token: Tensor },
    /// The embedding of the token.
    Embedding { id: u32, token: Tensor },
    /// The acoustic codes that go with the token.
    Predicting { id: u32, token: Tensor, embed: Tensor },
    /// The embedding of the acoustic codes of this frame.
    Summing { embed: Tensor, index: usize },
    /// What the talker makes of the frame.
    Stepping,
}

/// What the generator wants next.
pub enum GenTurn {
    /// A reply of the model.
    Ask(Request),
    /// That the frame of this token and these codes is kept, and a reply.
    Frame { id: u32, token: Tensor, acoustic: Tensor, ask: Request },
    /// A decision: a token was sampled.
    Token,
}

/// The state of the loop for one sequence.
pub struct Generator {
    pub config: GenerationConfig,
    /// Positions that the talker has seen.
    pub offset: usize,
    /// What the talker gave for the last position.
    pub last_hidden: Tensor,
    /// The tokens that were sampled, marked with one.
    pub penalty_mask: Tensor,
    /// How many tokens were sampled.
    pub token_count: usize,
    /// The text that is still to be fused with frames.
    pub trailing: Tensor,
    pub trailing_len: usize,
    /// What stands for no text.
    pub pad: Tensor,
    /// How many frames were made.
    pub frames: usize,
    pub phase: Phase,
}

/// A penalty mask that marks nothing.
pub open spec fn empty_mask(mask: Grid) -> bool {
    &&& is_mask(mask)
    &&& forall|i: int| 0 <= i < CODEC_VOCAB_SIZE ==> #[trigger] mask.cells[i] == 0
}

/// Whether a tensor can be a penalty mask of one sequence.
pub open spec fn is_mask(mask: Grid) -> bool {
    &&& mask.dims == seq![1usize, CODEC_VOCAB_SIZE]
    &&& mask.dtype == DType::F32
    &&& mask.cells.len() == CODEC_VOCAB_SIZE
}

/// That `phase` and `ask` are how the logits `raw` of a position are taken up:
/// repetition is penalised unless the penalty is one, then codes that are no
/// audio are suppressed.
pub open spec fn opened(
    config: GenerationConfig,
    mask: Tensor,
    raw: Tensor,
    phase: Phase,
    ask: Request,
) -> bool {
    if config.repetition_penalty.bits == crate::double::DOUBLE_ONE {
        &&& phase == Phase::Suppressing
        &&& ask matches Request::Suppress(t)
        &&& are_logits(grid(raw), grid(t))
    } else {
        &&& phase == Phase::Penalizing
        &&& ask matches Request::Penalize { logits, marks, penalty }
        &&& are_logits(grid(raw), grid(logits))
        &&& marks == mask
        &&& penalty == config.repetition_penalty
    }
}

/// Whether logits are such that they can be taken up on the CPU.
pub open spec fn takes_logits(raw: Tensor) -> bool {
    grid(raw).at_hand() && tensor_dims(raw).len() > 1 && tensor_dtype(raw).is_float()
}

/// Take up the logits of a position.
pub fn open_logits(config: &GenerationConfig, mask: &Tensor, raw: &Tensor) -> (r: Result<
    (Phase, Request),
    TtsError,
>)
    ensures
        r matches Ok((phase, ask)) ==> opened(*config, *mask, *raw, phase, ask),
        r matches Err(e) ==> e.is_computing(),
        takes_logits(*raw) ==> r is Ok,
{
    let logits = match to_logits(raw) {
        Ok(t) => t,
        Err(e) => {
            return Err(e);
        },
    };
    if config.repetition_penalty.is_one() {
        Ok((Phase::Suppressing, Request::Suppress(logits)))
    } else {
        Ok(
            (
                Phase::Penalizing,
                Request::Penalize { logits, marks: copy(mask), penalty: config.repetition_penalty },
            ),
        )
    }
}

/// A penalty mask that marks nothing.
pub fn new_mask(device: &Device) -> (r: Result<Tensor, TtsError>)
    ensures
        r matches Ok(t) ==> empty_mask(grid(t)) && tensor_location(t) == device_location(*device),
        r matches Err(e) ==> e is Tensor,
        device_location(*device) is Cpu ==> r is Ok,
{
    let shape: Vec<usize> = vec![1, CODEC_VOCAB_SIZE];
    proof {
        assert(shape@ =~= seq![1usize, CODEC_VOCAB_SIZE]);
        lemma_shape2(1, CODEC_VOCAB_SIZE);
    }
    match zeros(&shape, DType::F32, device) {
        Ok(t) => Ok(t),
        Err(e) => Err(TtsError::Tensor(e)),
    }
}

impl Generator {
    /// Whether the mask is one.
    pub open spec fn wf(self) -> bool {
        is_mask(grid(self.penalty_mask))
    }

    /// Whether this is a reply to what was asked.
    pub open spec fn awaits(self, reply: Reply) -> bool {
        match self.phase {
            Phase::Ready { .. } => false,
            Phase::Stepping => reply is Pair,
            _ => reply is Tensor,
        }
    }

    /// Whether a reply to what was asked can be taken up on the CPU.
    pub open spec fn accepts(self, reply: Reply) -> bool {
        &&& self.awaits(reply)
        &&& match (self.phase, reply) {
            (Phase::Suppressing, Reply::Tensor(t)) => self.token_count < self.config.min_new_tokens
                && self.config.eos_token_id is Some ==> {
                &&& grid(t).at_hand()
                &&& tensor_dims(t).len() == 2
                &&& tensor_dtype(t) == DType::F32
                &&& self.config.eos_token_id->0 < tensor_dims(t)[1]
            },
            (Phase::Sampling, Reply::Tensor(t)) => {
                &&& grid(t).at_hand()
                &&& tensor_dtype(t) == DType::U32
                &&& tensor_cells(t).len() > 0
                &&& tensor_location(self.penalty_mask) is Cpu
                &&& self.token_count < usize::MAX
            },
            (Phase::Predicting { .. }, _) => self.frames < usize::MAX,
            (Phase::Summing { embed, index }, Reply::Tensor(sum)) => fuses_on_cpu(
                grid(embed),
                grid(sum),
                grid(self.trailing),
                self.trailing_len as int,
                grid(self.pad),
                index,
            ),
            (Phase::Stepping, Reply::Pair(_, logits)) => takes_logits(logits) && self.offset
                < usize::MAX,
            _ => true,
        }
    }

    /// What a reply leads to.
    pub open spec fn steps(self, reply: Reply, next: Generator, turn: GenTurn) -> bool {
        match (self.phase, reply) {
            (Phase::Penalizing, Reply::Tensor(t)) => {
                &&& next == (Generator { phase: Phase::Suppressing, ..self })
                &&& turn == GenTurn::Ask(Request::Suppress(t))
            },
            (Phase::Suppressing, Reply::Tensor(t)) => {
                &&& next == (Generator { phase: Phase::Sampling, ..self })
                &&& turn matches GenTurn::Ask(Request::Sample { sequence, logits, config })
                &&& sequence == 0
                &&& grid(logits) == held_back(grid(t), self.config, self.token_count as int)
                &&& config == self.config
            },
            (Phase::Sampling, Reply::Tensor(t)) => {
                &&& next == (Generator {
                    penalty_mask: next.penalty_mask,
                    token_count: (self.token_count + 1) as usize,
                    phase: next.phase,
                    ..self
                })
                &&& turn == GenTurn::Token
                &&& self.token_count < usize::MAX
                &&& next.phase matches Phase::Ready { id, token }
                &&& token == t
                &&& tensor_dtype(t) == DType::U32
                &&& tensor_cells(t).len() > 0
                &&& id == tensor_cells(t)[0]
                &&& grid(next.penalty_mask) == marked(grid(self.penalty_mask), id, CODEC_VOCAB_SIZE)
            },
            (Phase::Embedding { id, token }, Reply::Tensor(embed)) => {
                &&& next == (Generator { phase: Phase::Predicting { id, token, embed }, ..self })
                &&& turn == GenTurn::Ask(Request::Acoustic { hidden: self.last_hidden, embed })
            },
            (Phase::Predicting { id, token, embed }, Reply::Tensor(acoustic)) => {
                &&& next == (Generator {
                    frames: (self.frames + 1) as usize,
                    phase: Phase::Summing { embed, index: self.frames },
                    ..self
                })
                &&& self.frames < usize::MAX
                &&& turn == (GenTurn::Frame {
                    id,
                    token,
                    acoustic,
                    ask: Request::AcousticSum(acoustic),
                })
            },
            (Phase::Summing { embed, index }, Reply::Tensor(sum)) => {
                &&& next == (Generator { phase: Phase::Stepping, ..self })
                &&& turn matches GenTurn::Ask(Request::Step { input, offset })
                &&& is_fused(
                    grid(embed),
                    grid(sum),
                    text_for(grid(self.trailing), self.trailing_len as int, grid(self.pad), index),
                    grid(input),
                )
                &&& offset == self.offset
            },
            (Phase::Stepping, Reply::Pair(hidden, logits)) => {
                &&& next == (Generator {
                    offset: (self.offset + 1) as usize,
                    last_hidden: hidden,
                    phase: next.phase,
                    ..self
                })
                &&& self.offset < usize::MAX
                &&& turn matches GenTurn::Ask(ask)
                &&& opened(self.config, self.penalty_mask, logits, next.phase, ask)
            },
            _ => false,
        }
    }

    /// That generation starts so behind a prompt: nothing is sampled or marked yet.
    pub open spec fn starts(f: Prefilled, device: Device, r: (Generator, Request)) -> bool {
        let g = r.0;
        &&& g == (Generator {
            config: f.config,
            offset: f.offset,
            last_hidden: f.last_hidden,
            penalty_mask: g.penalty_mask,
            token_count: 0,
            trailing: f.trailing,
            trailing_len: f.trailing_len,
            pad: f.pad,
            frames: 0,
            phase: g.phase,
        })
        &&& empty_mask(grid(g.penalty_mask))
        &&& tensor_location(g.penalty_mask) == device_location(device)
        &&& opened(f.config, g.penalty_mask, f.logits, g.phase, r.1)
    }

    /// Start behind a prompt.
    pub fn start(f: Prefilled, device: &Device) -> (r: Result<(Generator, Request), TtsError>)
        ensures
            r matches Ok(start) ==> Generator::starts(f, *device, start) && start.0.wf(),
            r matches Err(e) ==> e.is_computing(),
            device_location(*device) is Cpu && takes_logits(f.logits) ==> r is Ok,
    {
        let penalty_mask = match new_mask(device) {
            Ok(t) => t,
            Err(e) => {
                return Err(e);
            },
        };
        match open_logits(&f.config, &penalty_mask, &f.logits) {
            Ok((phase, ask)) => Ok(
                (
                    Generator {
                        config: f.config,
                        offset: f.offset,
                        last_hidden: f.last_hidden,
                        penalty_mask,
                        token_count: 0,
                        trailing: f.trailing,
                        trailing_len: f.trailing_len,
                        pad: f.pad,
                        frames: 0,
                        phase,
                    },
                    ask,
                ),
            ),
            Err(e) => Err(e),
        }
    }

    /// Make a frame of the token that was sampled.
    pub fn begin_frame(self) -> (r: (Generator, Request))
        requires
            self.phase is Ready,
        ensures
            self.phase matches Phase::Ready { id, token } ==> {
                &&& r.0 == (Generator { phase: Phase::Embedding { id, token }, ..self })
                &&& r.1 == Request::EmbedToken(token)
            },
    {
        match self.phase {
            Phase::Ready { id, token } => {
                let ask = Request::EmbedToken(copy(&token));
                (Generator { phase: Phase::Embedding { id, token }, ..self }, ask)
            },
            other => (Generator { phase: other, ..self }, Request::TtsPad),
        }
    }

    /// Take up a reply.
    pub fn step(self, reply: Reply) -> (r: Result<(Generator, GenTurn), TtsError>)
        requires
            self.wf(),
        ensures
            r matches Ok((next, turn)) ==> next.wf() && self.steps(reply, next, turn),
            (r matches Err(e) && e is UnexpectedReply) <==> !self.awaits(reply),
            self.accepts(reply) ==> r is Ok,
    {
        match (self.phase, reply) {
            (Phase::Penalizing, Reply::Tensor(t)) => Ok(
                (
                    Generator { phase: Phase::Suppressing, ..self },
                    GenTurn::Ask(Request::Suppress(t)),
                ),
            ),
            (Phase::Suppressing, Reply::Tensor(t)) => {
                match hold_back_eos(t, &self.config, self.token_count) {
                    Ok(logits) => {
                        let ask = Request::Sample { sequence: 0, logits, config: self.config };
                        Ok((Generator { phase: Phase::Sampling, ..self }, GenTurn::Ask(ask)))
                    },
                    Err(e) => Err(e),
                }
            },
            (Phase::Sampling, Reply::Tensor(t)) => {
                let id = match sampled_token(&t) {
                    Ok(id) => id,
                    Err(e) => {
                        return Err(e);
                    },
                };
                let token_count = match self.token_count.checked_add(1) {
                    Some(n) => n,
                    None => {
                        return Err(TtsError::Overflow);
                    },
                };
                let mut penalty_mask = self.penalty_mask;
                proof {
                    lemma_shape2(1, CODEC_VOCAB_SIZE);
                }
                match update_penalty_mask(&mut penalty_mask, id, CODEC_VOCAB_SIZE) {
                    Ok(_) => {},
                    Err(e) => {
                        return Err(e);
                    },
                }
                Ok(
                    (
                        Generator {
                            penalty_mask,
                            token_count,
                            phase: Phase::Ready { id, token: t },
                            ..self
                        },
                        GenTurn::Token,
                    ),
                )
            },
            (Phase::Embedding { id, token }, Reply::Tensor(embed)) => {
                let ask = Request::Acoustic {
                    hidden: copy(&self.last_hidden),
                    embed: copy(&embed),
                };
                Ok(
                    (
                        Generator { phase: Phase::Predicting { id, token, embed }, ..self },
                        GenTurn::Ask(ask),
                    ),
                )
            },
            (Phase::Predicting { id, token, embed }, Reply::Tensor(acoustic)) => {
                let index = self.frames;
                let frames = match index.checked_add(1) {
                    Some(n) => n,
                    None => {
                        return Err(TtsError::Overflow);
                    },
                };
                let ask = Request::AcousticSum(copy(&acoustic));
                Ok(
                    (
                        Generator { frames, phase: Phase::Summing { embed, index }, ..self },
                        GenTurn::Frame { id, token, acoustic, ask },
                    ),
                )
            },
            (Phase::Summing { embed, index }, Reply::Tensor(sum)) => {
                match step_input(
                    &embed,
                    &sum,
                    &self.trailing,
                    self.trailing_len,
                    &self.pad,
                    index,
                ) {
                    Ok(input) => {
                        let ask = Request::Step { input, offset: self.offset };
                        Ok((Generator { phase: Phase::Stepping, ..self }, GenTurn::Ask(ask)))
                    },
                    Err(e) => Err(e),
                }
            },
            (Phase::Stepping, Reply::Pair(last_hidden, logits)) => {
                let offset = match self.offset.checked_add(1) {
                    Some(n) => n,
                    None => {
                        return Err(TtsError::Overflow);
                    },
                };
                match open_logits(&self.config, &self.penalty_mask, &logits) {
                    Ok((phase, ask)) => Ok(
                        (Generator { offset, last_hidden, phase, ..self }, GenTurn::Ask(ask)),
                    ),
                    Err(e) => Err(e),
                }
            },
            _ => Err(TtsError::UnexpectedReply),
        }
    }
}

} // verus!
