//! Sampling the next token of one of several sequences.
use crate::error::TtsError;
use crate::generation::{
    held_back, hold_back_eos, marked, sampled_token, update_penalty_mask,
};
use crate::generator::{is_mask, open_logits, opened, takes_logits, Phase};
use crate::grid::{lemma_shape2, DType};
use crate::options::{GenerationConfig, CODEC_VOCAB_SIZE};
use crate::request::{Reply, Request};
use crate::tensor::{grid, tensor_cells, tensor_dims, tensor_dtype, tensor_location};
use candle_core::Tensor;
use vstd::prelude::*;

verus! {

/// Samples a token: repetition is penalised, codes that are no audio are
/// suppressed, and so is end-of-sequence while it is too early for it.
pub struct TokenStep {
    pub config: GenerationConfig,
    /// Which sequence the token is for.
    pub sequence: usize,
    /// How many tokens that sequence has.
    pub token_count: usize,
    /// The tokens that it has, marked.
    pub mask: Tensor,
    pub phase: Phase,
}

/// What is wanted next.
pub enum TokenTurn {
    /// A reply of the model.
    Ask(TokenStep, Request),
    /// Nothing: this token was sampled, and it is marked.
    Token { id: u32, token: Tensor, mask: Tensor },
}

impl TokenStep {
    /// The mask is one, and the token is not there yet.
    pub open spec fn wf(self) -> bool {
        &&& is_mask(grid(self.mask))
        &&& self.phase is Penalizing || self.phase is Suppressing || self.phase is Sampling
    }

    /// That sampling starts so.
    pub open spec fn starts(
        config: GenerationConfig,
        sequence: usize,
        token_count: usize,
        mask: Tensor,
        logits: Tensor,
        r: (TokenStep, Request),
    ) -> bool {
        &&& r.0 == (TokenStep { config, sequence, token_count, mask, phase: r.0.phase })
        &&& opened(config, mask, logits, r.0.phase, r.1)
    }

    /// Whether a reply can be taken up on the CPU.
    pub open spec fn accepts(self, reply: Reply) -> bool {
        match (self.phase, reply) {
            (Phase::Suppressing, Reply::Tensor(t)) => self.token_count < self.config.min_new_tokens
                && self.config.eos_token_id is Some ==> {
                &&& grid(t).at_hand()
                &&& tensor_dims(t).len() == 2
                &&& tensor_dtype(t) == DType::F32
                &&& self.config.eos_token_id->0 < tensor_dims(t)[1]
            },
            (Phase::Sampling, Reply::Tensor(t)) => {
                &&& grid(t).at_hand()
                &&& tensor_dtype(t) == DType::U32
                &&& tensor_cells(t).len() > 0
                &&& tensor_location(self.mask) is Cpu
            },
            (_, Reply::Tensor(_)) => true,
            _ => false,
        }
    }

    /// What a reply leads to.
    pub open spec fn steps(self, reply: Reply, turn: TokenTurn) -> bool {
        match (self.phase, reply) {
            (Phase::Penalizing, Reply::Tensor(t)) => {
                turn == TokenTurn::Ask(
                    TokenStep { phase: Phase::Suppressing, ..self },
                    Request::Suppress(t),
                )
            },
            (Phase::Suppressing, Reply::Tensor(t)) => {
                &&& turn matches TokenTurn::Ask(next, Request::Sample { sequence, logits, config })
                &&& next == (TokenStep { phase: Phase::Sampling, ..self })
                &&& sequence == self.sequence
                &&& grid(logits) == held_back(grid(t), self.config, self.token_count as int)
                &&& config == self.config
            },
            (Phase::Sampling, Reply::Tensor(t)) => {
                &&& turn matches TokenTurn::Token { id, token, mask }
                &&& token == t
                &&& tensor_dtype(t) == DType::U32
                &&& tensor_cells(t).len() > 0
                &&& id == tensor_cells(t)[0]
                &&& grid(mask) == marked(grid(self.mask), id, CODEC_VOCAB_SIZE)
            },
            _ => false,
        }
    }

    /// Start with the logits of a position.
    pub fn start(
        config: GenerationConfig,
        sequence: usize,
        token_count: usize,
        mask: Tensor,
        logits: &Tensor,
    ) -> (r: Result<(TokenStep, Request), TtsError>)
        requires
            is_mask(grid(mask)),
        ensures
            r matches Ok(start) ==> start.0.wf() && TokenStep::starts(
                config,
                sequence,
                token_count,
                mask,
                *logits,
                start,
            ),
            r matches Err(e) ==> e.is_computing(),
            takes_logits(*logits) ==> r is Ok,
    {
        match open_logits(&config, &mask, logits) {
            Ok((phase, ask)) => Ok(
                (TokenStep { config, sequence, token_count, mask, phase }, ask),
            ),
            Err(e) => Err(e),
        }
    }

    /// Take up a reply.
    pub fn step(self, reply: Reply) -> (r: Result<TokenTurn, TtsError>)
        requires
            self.wf(),
        ensures
            r matches Ok(turn) ==> self.steps(reply, turn),
            r matches Ok(TokenTurn::Ask(next, _)) ==> next.wf(),
            r matches Ok(TokenTurn::Token { mask, .. }) ==> is_mask(grid(mask)),
            (r matches Err(e) && e is UnexpectedReply) <==> !(reply is Tensor),
            self.accepts(reply) ==> r is Ok,
    {
        match (self.phase, reply) {
            (Phase::Penalizing, Reply::Tensor(t)) => {
                let next = TokenStep { phase: Phase::Suppressing, ..self };
                Ok(TokenTurn::Ask(next, Request::Suppress(t)))
            },
            (Phase::Suppressing, Reply::Tensor(t)) => {
                match hold_back_eos(t, &self.config, self.token_count) {
                    Ok(logits) => {
                        let ask = Request::Sample {
                            sequence: self.sequence,
                            logits,
                            config: self.config,
                        };
                        Ok(TokenTurn::Ask(TokenStep { phase: Phase::Sampling, ..self }, ask))
                    },
                    Err(e) => Err(e),
                }
            },
            (Phase::Sampling, Reply::Tensor(t)) => {
                let id = match sampled_token(&t) {
                    Ok(id) => id,
                    Err(e) => {
                        return Err(e);
                    },
                };
                let mut mask = self.mask;
                proof {
                    lemma_shape2(1, CODEC_VOCAB_SIZE);
                }
                match update_penalty_mask(&mut mask, id, CODEC_VOCAB_SIZE) {
                    Ok(_) => Ok(TokenTurn::Token { id, token: t, mask }),
                    Err(e) => Err(e),
                }
            },
            _ => Err(TtsError::UnexpectedReply),
        }
    }
}

} // verus!
