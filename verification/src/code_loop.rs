//! The loop that generates all frames of one text.
use crate::codes::{are_frames, gpu_frames_to_frame_codes, transferred, FrameCodes};
use crate::error::TtsError;
use crate::generation::{are_acoustic, frame_from_tensor, is_frame_of};
use crate::generator::{takes_logits, GenTurn, Generator, Phase};
use crate::grid::DType;
use crate::options::GenerationConfig;
use crate::prefill::Prefilled;
use crate::request::{Reply, Request};
use crate::tensor::{device_location, grid, tensor_cells, tensor_dtype, tensor_location};
use candle_core::{Device, Tensor};
use vstd::prelude::*;

verus! {

/// Generates frames until end-of-sequence is sampled or there are enough.
pub struct CodeLoop {
    pub generator: Generator,
    /// The frames so far, in order.
    pub frames: Vec<Tensor>,
}

/// What the loop wants next.
pub enum CodeTurn {
    /// A reply of the model.
    Ask(CodeLoop, Request),
    /// Nothing: these are the frames.
    Codes(FrameCodes),
}

/// Whether generation ends with this token: it is end-of-sequence, or there are
/// as many frames as there may be.
pub open spec fn ends_with(config: GenerationConfig, frames: nat, id: u32) -> bool {
    config.eos_token_id == Some(id) || frames >= config.max_new_tokens
}

/// Whether generation ends with this token.
pub fn is_end(config: &GenerationConfig, frames: usize, id: u32) -> (r: bool)
    ensures
        r == ends_with(*config, frames as nat, id),
{
    if let Some(eos_id) = config.eos_token_id {
        if id == eos_id {
            return true;
        }
    }
    frames >= config.max_new_tokens
}

/// That no frame holds end-of-sequence as its semantic code.
pub open spec fn without_eos(config: GenerationConfig, frames: Seq<Tensor>) -> bool {
    config.eos_token_id matches Some(eos) ==> forall|f: int|
        0 <= f < frames.len() ==> tensor_cells(#[trigger] frames[f]).len() > 0 && tensor_cells(
            frames[f],
        )[0] != eos
}

impl CodeLoop {
    /// There are no more frames than there may be, none holds end-of-sequence,
    /// and the token that is being made a frame does not end generation.
    pub open spec fn wf(self) -> bool {
        &&& self.generator.wf()
        &&& self.frames@.len() == self.generator.frames
        &&& self.frames@.len() <= self.generator.config.max_new_tokens
        &&& without_eos(self.generator.config, self.frames@)
        &&& match self.generator.phase {
            Phase::Ready { .. } => false,
            Phase::Embedding { id, token } | Phase::Predicting { id, token, .. } => {
                &&& !ends_with(self.generator.config, self.frames@.len(), id)
                &&& tensor_cells(token).len() > 0
                &&& id == tensor_cells(token)[0]
            },
            _ => true,
        }
    }

    /// What a reply leads to.
    pub open spec fn steps(self, reply: Reply, turn: CodeTurn) -> bool {
        exists|g: Generator, t: GenTurn| #[trigger]
            self.generator.steps(reply, g, t) && self.follows(g, t, turn)
    }

    /// What the turn of the generator leads to.
    pub open spec fn follows(self, g: Generator, t: GenTurn, turn: CodeTurn) -> bool {
        match t {
            GenTurn::Ask(ask) => {
                turn == CodeTurn::Ask(CodeLoop { generator: g, frames: self.frames }, ask)
            },
            GenTurn::Frame { id, token, acoustic, ask } => {
                &&& turn matches CodeTurn::Ask(next, asked)
                &&& asked == ask
                &&& next.generator == g
                &&& next.frames@.len() == self.frames@.len() + 1
                &&& next.frames@.drop_last() == self.frames@
                &&& is_frame_of(id as int, grid(acoustic), grid(next.frames@.last()))
            },
            GenTurn::Token => {
                &&& g.phase matches Phase::Ready { id, token }
                &&& if ends_with(g.config, self.frames@.len(), id) {
                    &&& turn matches CodeTurn::Codes(codes)
                    &&& transferred(self.frames@, codes@)
                } else {
                    turn == CodeTurn::Ask(
                        CodeLoop {
                            generator: Generator { phase: Phase::Embedding { id, token }, ..g },
                            frames: self.frames,
                        },
                        Request::EmbedToken(token),
                    )
                }
            },
        }
    }

    /// Whether a reply can be taken up on the CPU.
    pub open spec fn accepts(self, reply: Reply) -> bool {
        &&& self.generator.accepts(reply)
        &&& match (self.generator.phase, reply) {
            (Phase::Predicting { id, token, .. }, Reply::Tensor(acoustic)) => {
                &&& grid(token).at_hand()
                &&& tensor_dtype(token) == DType::U32
                &&& tensor_cells(token).len() == 1
                &&& are_acoustic(grid(acoustic))
            },
            (Phase::Sampling, _) => {
                &&& are_frames(self.frames@)
                &&& self.frames@.len() * 256 <= usize::MAX
                &&& forall|f: int|
                    0 <= f < self.frames@.len() ==> tensor_location(#[trigger] self.frames@[f]) is Cpu
            },
            _ => true,
        }
    }

    /// That generation starts so behind a prompt.
    pub open spec fn starts(f: Prefilled, device: Device, r: (CodeLoop, Request)) -> bool {
        &&& Generator::starts(f, device, (r.0.generator, r.1))
        &&& r.0.frames@.len() == 0
    }

    /// Start behind a prompt.
    pub fn start(f: Prefilled, device: &Device) -> (r: Result<(CodeLoop, Request), TtsError>)
        ensures
            r matches Ok(start) ==> CodeLoop::starts(f, *device, start) && start.0.wf(),
            r matches Err(e) ==> e.is_computing(),
            device_location(*device) is Cpu && takes_logits(f.logits) ==> r is Ok,
    {
        match Generator::start(f, device) {
            Ok((generator, ask)) => Ok((CodeLoop { generator, frames: Vec::new() }, ask)),
            Err(e) => Err(e),
        }
    }

    /// Take up a reply.
    pub fn step(self, reply: Reply) -> (r: Result<CodeTurn, TtsError>)
        requires
            self.wf(),
        ensures
            r matches Ok(turn) ==> self.steps(reply, turn),
            r matches Ok(CodeTurn::Ask(next, _)) ==> next.wf() && next.generator.config
                == self.generator.config,
            r matches Ok(CodeTurn::Codes(codes)) ==> codes@.len() <= self.generator.config.max_new_tokens,
            (r matches Err(e) && e is UnexpectedReply) <==> !self.generator.awaits(reply),
            self.accepts(reply) ==> r is Ok,
    {
        let mut frames = self.frames;
        let ghost reply0 = reply;
        let (generator, turn) = match self.generator.step(reply) {
            Ok(next) => next,
            Err(e) => {
                return Err(e);
            },
        };
        let ghost g = generator;
        let ghost t = turn;
        assert(self.generator.steps(reply0, g, t));
        match turn {
            GenTurn::Ask(ask) => {
                let out = CodeTurn::Ask(CodeLoop { generator, frames }, ask);
                assert(self.follows(g, t, out));
                Ok(out)
            },
            GenTurn::Frame { id, token, acoustic, ask } => {
                let frame = match frame_from_tensor(&token, &acoustic) {
                    Ok(f) => f,
                    Err(e) => {
                        return Err(e);
                    },
                };
                frames.push(frame);
                proof {
                    assert(frames@.drop_last() =~= self.frames@);
                    assert(frames@.last() == frame);
                }
                let out = CodeTurn::Ask(CodeLoop { generator, frames }, ask);
                assert(self.follows(g, t, out));
                Ok(out)
            },
            GenTurn::Token => {
                let id = match &generator.phase {
                    Phase::Ready { id, .. } => *id,
                    _ => 0,
                };
                if is_end(&generator.config, frames.len(), id) {
                    match gpu_frames_to_frame_codes(&frames) {
                        Ok(codes) => {
                            let out = CodeTurn::Codes(codes);
                            assert(self.follows(g, t, out));
                            Ok(out)
                        },
                        Err(e) => Err(e),
                    }
                } else {
                    let (generator, ask) = generator.begin_frame();
                    let out = CodeTurn::Ask(CodeLoop { generator, frames }, ask);
                    assert(self.follows(g, t, out));
                    Ok(out)
                }
            },
        }
    }
}

} // verus!
