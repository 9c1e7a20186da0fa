//! Synthesis that yields audio chunk by chunk.
use crate::audio::AudioBuffer;
use crate::codes::{codes_grid, fit_codebooks, frames_to_tensor, values, FrameCodes};
use crate::error::TtsError;
use crate::generation::{are_acoustic, frame_from_id};
use crate::generator::{takes_logits, GenTurn, Generator, Phase};
use crate::grid::{cells_of, lemma_shape1};
use crate::ops::numbers;
use crate::options::{GenerationConfig, SAMPLE_RATE};
use crate::prefill::{Prefill, PrefillTurn, Prefilled};
use crate::request::{Reply, Request};
use crate::tensor::{device_location, grid, tensor_cells};
use candle_core::{Device, Tensor};
use vstd::prelude::*;

verus! {

/// What a session waits for.
#[derive(Clone, Copy, Debug, PartialEq, Eq, Structural)]
pub enum Waiting {
    /// Nothing: no chunk is asked for.
    Nothing,
    /// What the generator asked for.
    Model,
    /// The waveform of a chunk.
    Waveform,
    /// The audio of a chunk.
    Audio,
}

/// Streaming synthesis session: yields audio chunks as they are generated.
pub struct StreamingSession {
    pub device: Device,
    pub config: GenerationConfig,
    /// The state of generation, or `None` when it is over.
    pub generator: Option<Generator>,
    pub frames_generated: usize,
    /// Frames that are not decoded yet.
    pub frame_buffer: FrameCodes,
    pub chunk_frames: usize,
    /// Whether end-of-sequence was sampled, or generation cannot go on.
    pub done: bool,
    pub waiting: Waiting,
    /// All frames, in the order in which they were generated.
    pub made: Ghost<Seq<Seq<u32>>>,
    /// The frames that were handed to the decoder.
    pub sent: Ghost<Seq<Seq<u32>>>,
}

/// What a session wants next.
pub enum ChunkTurn {
    /// A reply of the model.
    Ask(Request),
    /// Nothing: this is the next chunk.
    Chunk(AudioBuffer),
    /// Nothing: there are no more chunks.
    End,
}

impl StreamingSession {
    /// Each frame was handed to the decoder once, in order, or is still
    /// buffered. There are no more frames than there may be, and no more
    /// buffered than a chunk has. None has end-of-sequence as its semantic code.
    pub open spec fn wf(self) -> bool {
        &&& self.made@ == self.sent@ + values(self.frame_buffer@)
        &&& self.made@.len() == self.frames_generated
        &&& self.frames_generated <= self.config.max_new_tokens
        &&& self.frame_buffer@.len() <= self.chunk_frames
        &&& self.done ==> self.generator is None
        &&& self.waiting == Waiting::Model ==> self.generator is Some
        &&& self.generator matches Some(g) ==> {
            &&& g.wf()
            &&& g.config == self.config
            &&& g.frames == self.frames_generated
            &&& (g.phase is Embedding || g.phase is Predicting) ==> self.wants_frame()
            &&& g.phase is Ready <==> self.waiting != Waiting::Model
            &&& match g.phase {
                Phase::Ready { id, .. } => self.config.eos_token_id != Some(id),
                Phase::Embedding { id, .. } => self.config.eos_token_id != Some(id),
                Phase::Predicting { id, .. } => self.config.eos_token_id != Some(id),
                _ => true,
            }
        }
        &&& self.config.eos_token_id matches Some(eos) ==> forall|f: int|
            0 <= f < self.made@.len() ==> (#[trigger] self.made@[f]).len() > 0 && self.made@[f][0]
                != eos
    }

    /// Whether another frame belongs to the chunk.
    pub open spec fn wants_frame(self) -> bool {
        self.frame_buffer@.len() < self.chunk_frames && self.frames_generated
            < self.config.max_new_tokens
    }

    /// The session after a chunk was given up: a frame that was being made is
    /// lost, and generation cannot go on.
    pub open spec fn given_up(self) -> StreamingSession {
        if self.waiting == Waiting::Model {
            StreamingSession { generator: None, waiting: Waiting::Nothing, ..self }
        } else {
            StreamingSession { waiting: Waiting::Nothing, ..self }
        }
    }

    /// That the buffered frames are decoded next, or that there is no more chunk.
    pub open spec fn flushes(self, next: StreamingSession, turn: ChunkTurn) -> bool {
        if self.frame_buffer@.len() == 0 {
            &&& next == (StreamingSession { waiting: Waiting::Nothing, ..self })
            &&& turn == ChunkTurn::End
        } else {
            &&& turn matches ChunkTurn::Ask(Request::Decode(t))
            &&& fit_codebooks(values(self.frame_buffer@))
            &&& grid(t) == codes_grid(values(self.frame_buffer@), device_location(self.device))
            &&& next == (StreamingSession {
                frame_buffer: next.frame_buffer,
                sent: next.sent,
                waiting: Waiting::Waveform,
                ..self
            })
            &&& next.frame_buffer@.len() == 0
            &&& next.sent@ == self.sent@ + values(self.frame_buffer@)
        }
    }

    /// The session after what is buffered could not be decoded: it is buffered
    /// still, and where no frame could be added generation is over.
    pub open spec fn stuck(self) -> StreamingSession {
        StreamingSession {
            done: self.done || (self.wants_frame() && self.generator is None),
            ..self
        }
    }

    /// What an error leaves of the session. While the model was waited for, either
    /// the step failed and generation is over, or a token was sampled and the chunk
    /// that it completes could not be decoded. While the audio of a chunk was waited
    /// for, only that chunk is lost.
    pub open spec fn fails(self, reply: Reply, next: StreamingSession) -> bool {
        if self.waiting == Waiting::Model {
            ||| next == (StreamingSession {
                generator: None,
                waiting: Waiting::Nothing,
                ..self
            })
            ||| self.frame_buffer@.len() > 0 && exists|g: Generator| #[trigger]
                self.generator->0.steps(reply, g, GenTurn::Token) && next == self.took(g).stuck()
        } else {
            next == (StreamingSession { waiting: Waiting::Nothing, ..self })
        }
    }

    /// The session after a token was sampled: end-of-sequence ends generation.
    pub open spec fn took(self, g: Generator) -> StreamingSession {
        if self.config.eos_token_id matches Some(eos) && g.phase matches Phase::Ready { id, .. }
            && id == eos {
            StreamingSession { generator: None, done: true, waiting: Waiting::Nothing, ..self }
        } else {
            StreamingSession { generator: Some(g), waiting: Waiting::Nothing, ..self }
        }
    }

    /// That the chunk is filled up: with the frame of the token that was sampled,
    /// and where there is none, or there are enough, it is decoded.
    pub open spec fn continues(self, next: StreamingSession, turn: ChunkTurn) -> bool {
        if self.wants_frame() {
            match self.generator {
                Some(g) => {
                    &&& g.phase matches Phase::Ready { id, token }
                    &&& next == (StreamingSession {
                        generator: Some(Generator { phase: Phase::Embedding { id, token }, ..g }),
                        waiting: Waiting::Model,
                        ..self
                    })
                    &&& turn == ChunkTurn::Ask(Request::EmbedToken(token))
                },
                None => (StreamingSession { done: true, ..self }).flushes(next, turn),
            }
        } else {
            self.flushes(next, turn)
        }
    }

    /// That the frame of this token and these codes is buffered.
    pub open spec fn buffers(
        self,
        g: Generator,
        id: u32,
        acoustic: Tensor,
        next: StreamingSession,
    ) -> bool {
        &&& next == (StreamingSession {
            generator: Some(g),
            frames_generated: (self.frames_generated + 1) as usize,
            frame_buffer: next.frame_buffer,
            made: next.made,
            ..self
        })
        &&& next.frame_buffer@.len() == self.frame_buffer@.len() + 1
        &&& next.frame_buffer@.drop_last() == self.frame_buffer@
        &&& cells_of(next.frame_buffer@.last()@) == seq![id as int] + tensor_cells(acoustic)
        &&& next.made@ == self.made@.push(next.frame_buffer@.last()@)
    }

    /// What the turn of the generator leads to.
    pub open spec fn follows(
        self,
        g: Generator,
        t: GenTurn,
        next: StreamingSession,
        turn: ChunkTurn,
    ) -> bool {
        match t {
            GenTurn::Ask(ask) => {
                &&& next == (StreamingSession { generator: Some(g), ..self })
                &&& turn == ChunkTurn::Ask(ask)
            },
            GenTurn::Frame { id, token, acoustic, ask } => {
                &&& self.buffers(g, id, acoustic, next)
                &&& turn == ChunkTurn::Ask(ask)
            },
            GenTurn::Token => {
                &&& g.phase matches Phase::Ready { id, token }
                &&& self.took(g).continues(next, turn)
            },
        }
    }

    /// What a reply leads to.
    pub open spec fn steps(self, reply: Reply, next: StreamingSession, turn: ChunkTurn) -> bool {
        match self.waiting {
            Waiting::Nothing => false,
            Waiting::Model => {
                &&& self.generator matches Some(g0)
                &&& exists|g: Generator, t: GenTurn| #[trigger]
                    g0.steps(reply, g, t) && self.follows(g, t, next, turn)
            },
            Waiting::Waveform => {
                &&& reply matches Reply::Tensor(waveform)
                &&& next == (StreamingSession { waiting: Waiting::Audio, ..self })
                &&& turn == ChunkTurn::Ask(Request::ToAudio(waveform, SAMPLE_RATE))
            },
            Waiting::Audio => {
                &&& reply matches Reply::Audio(audio)
                &&& next == (StreamingSession { waiting: Waiting::Nothing, ..self })
                &&& turn == ChunkTurn::Chunk(audio)
            },
        }
    }

    /// Whether this is a reply to what was asked.
    pub open spec fn awaits(self, reply: Reply) -> bool {
        match self.waiting {
            Waiting::Nothing => false,
            Waiting::Model => self.generator matches Some(g) && g.awaits(reply),
            Waiting::Waveform => reply is Tensor,
            Waiting::Audio => reply is Audio,
        }
    }

    /// Whether the buffered frames can be decoded on the CPU.
    pub open spec fn decodable(self) -> bool {
        &&& device_location(self.device) is Cpu
        &&& fit_codebooks(values(self.frame_buffer@))
        &&& self.frame_buffer@.len() * 256 <= usize::MAX
    }

    /// Whether what is buffered, if anything is, can be decoded in any case.
    pub open spec fn flushable(self) -> bool {
        self.frame_buffer@.len() == 0 || self.decodable()
    }

    /// Whether a reply can be taken up in any case: what is computed with it is on
    /// the CPU and fits.
    pub open spec fn accepts(self, reply: Reply) -> bool {
        match self.waiting {
            Waiting::Nothing => false,
            Waiting::Model => {
                &&& self.generator matches Some(g)
                &&& g.accepts(reply)
                &&& g.phase is Predicting ==> device_location(self.device) is Cpu && (
                reply matches Reply::Tensor(acoustic) && are_acoustic(grid(acoustic)))
                &&& g.phase is Sampling ==> self.flushable()
            },
            Waiting::Waveform => reply is Tensor,
            Waiting::Audio => reply is Audio,
        }
    }

    /// Whether generation is complete: there is nothing to decode and no frame to
    /// come.
    pub open spec fn complete(self) -> bool {
        &&& self.done || self.frames_generated >= self.config.max_new_tokens
        &&& self.frame_buffer@.len() == 0
    }

    /// Returns the total number of frames generated so far.
    pub fn frames_generated(&self) -> (r: usize)
        ensures
            r == self.frames_generated,
    {
        self.frames_generated
    }

    /// Returns true if generation is complete.
    pub fn is_done(&self) -> (r: bool)
        ensures
            r == self.complete(),
    {
        (self.done || self.frames_generated >= self.config.max_new_tokens) && self.frame_buffer.len()
            == 0
    }

    /// Decode the buffered frames.
    fn flush(&mut self) -> (r: Result<ChunkTurn, TtsError>)
        requires
            old(self).wf(),
            old(self).waiting == Waiting::Nothing,
        ensures
            final(self).wf(),
            r matches Ok(turn) ==> old(self).flushes(*final(self), turn),
            r is Err ==> *final(self) == *old(self),
            r is Err ==> old(self).frame_buffer@.len() > 0,
            r matches Err(e) ==> e.is_computing() || e is BadFrame,
            old(self).flushable() ==> r is Ok,
    {
        if self.frame_buffer.len() == 0 {
            return Ok(ChunkTurn::End);
        }
        let codes = match frames_to_tensor(&self.frame_buffer, &self.device) {
            Ok(t) => t,
            Err(e) => {
                return Err(e);
            },
        };
        self.sent = Ghost(self.sent@ + values(self.frame_buffer@));
        self.frame_buffer = Vec::new();
        self.waiting = Waiting::Waveform;
        proof {
            assert(values(self.frame_buffer@) =~= Seq::<Seq<u32>>::empty());
            assert(self.made@ =~= self.sent@ + values(self.frame_buffer@));
        }
        Ok(ChunkTurn::Ask(Request::Decode(codes)))
    }

    /// Fill the chunk up.
    fn fill(&mut self) -> (r: Result<ChunkTurn, TtsError>)
        requires
            old(self).wf(),
            old(self).waiting == Waiting::Nothing,
        ensures
            final(self).wf(),
            r matches Ok(turn) ==> old(self).continues(*final(self), turn),
            r is Err ==> *final(self) == old(self).stuck(),
            r is Err ==> old(self).frame_buffer@.len() > 0,
            r matches Err(e) ==> e.is_computing() || e is BadFrame,
            old(self).flushable() || (old(self).wants_frame() && old(self).generator is Some) ==> r is Ok,
    {
        if self.frame_buffer.len() < self.chunk_frames && self.frames_generated
            < self.config.max_new_tokens {
            match self.generator.take() {
                Some(g) => {
                    let (g, ask) = g.begin_frame();
                    self.generator = Some(g);
                    self.waiting = Waiting::Model;
                    return Ok(ChunkTurn::Ask(ask));
                },
                None => {
                    self.done = true;
                },
            }
        }
        self.flush()
    }

    /// Generate the next chunk of audio.
    ///
    /// The chunk comes at the end of the replies to what is asked, and where
    /// generation is complete there is none. A chunk that was given up before
    /// its end loses the frame that was being made.
    pub fn next_chunk(&mut self) -> (r: Result<ChunkTurn, TtsError>)
        requires
            old(self).wf(),
        ensures
            final(self).wf(),
            r matches Ok(turn) ==> if old(self).done {
                old(self).given_up().flushes(*final(self), turn)
            } else {
                old(self).given_up().continues(*final(self), turn)
            },
            r is Err ==> *final(self) == old(self).given_up().stuck(),
            r matches Err(e) ==> e.is_computing() || e is BadFrame,
            old(self).frame_buffer@.len() == 0 ==> r is Ok,
            old(self).decodable() ==> r is Ok,
            old(self).given_up().wants_frame() && old(self).given_up().generator is Some ==> r is Ok,
    {
        match self.waiting {
            Waiting::Model => {
                self.generator = None;
            },
            _ => {},
        }
        self.waiting = Waiting::Nothing;
        if self.done {
            self.flush()
        } else {
            self.fill()
        }
    }

    /// Buffer the frame of a token and its acoustic codes.
    fn buffer_frame(&mut self, g: Generator, id: u32, acoustic: &Tensor) -> (r: Result<(), TtsError>)
        requires
            old(self).wf(),
            old(self).waiting == Waiting::Nothing,
            old(self).generator is None,
            !old(self).done,
            old(self).wants_frame(),
            old(self).config.eos_token_id != Some(id),
            g.wf(),
            g.config == old(self).config,
            g.frames == old(self).frames_generated + 1,
            g.phase is Summing,
        ensures
            final(self).wf(),
            r is Ok ==> (StreamingSession { waiting: Waiting::Model, ..*old(self) }).buffers(
                g,
                id,
                *acoustic,
                *final(self),
            ),
            r is Err ==> *final(self) == *old(self),
            r matches Err(e) ==> e.is_computing(),
            device_location(old(self).device) is Cpu && are_acoustic(grid(*acoustic)) ==> r is Ok,
    {
        let frame = match frame_from_id(id, acoustic, &self.device) {
            Ok(t) => t,
            Err(e) => {
                return Err(e);
            },
        };
        proof {
            lemma_shape1((grid(*acoustic).dims[0] + 1) as usize);
        }
        let codes = match numbers(&frame) {
            Ok(v) => v,
            Err(e) => {
                return Err(e);
            },
        };
        let ghost before = self.frame_buffer@;
        let ghost made = self.made@;
        self.frame_buffer.push(codes);
        self.made = Ghost(self.made@.push(codes@));
        self.frames_generated = self.frames_generated + 1;
        self.generator = Some(g);
        self.waiting = Waiting::Model;
        proof {
            assert(self.frame_buffer@.drop_last() =~= before);
            assert(values(self.frame_buffer@) =~= values(before).push(codes@));
            assert(self.made@ =~= self.sent@ + values(self.frame_buffer@));
            assert(cells_of(codes@)[0] == id);
            assert(codes@.len() == cells_of(codes@).len());
            assert(codes@[0] == id);
        }
        Ok(())
    }

    /// Take up a reply of the model.
    pub fn resume(&mut self, reply: Reply) -> (r: Result<ChunkTurn, TtsError>)
        requires
            old(self).wf(),
        ensures
            final(self).wf(),
            r matches Ok(turn) ==> old(self).steps(reply, *final(self), turn),
            r is Err ==> old(self).fails(reply, *final(self)),
            (r matches Err(e) && e is UnexpectedReply) <==> !old(self).awaits(reply),
            old(self).accepts(reply) ==> r is Ok,
    {
        let waiting = self.waiting;
        self.waiting = Waiting::Nothing;
        match waiting {
            Waiting::Nothing => Err(TtsError::UnexpectedReply),
            Waiting::Waveform => match reply {
                Reply::Tensor(waveform) => {
                    self.waiting = Waiting::Audio;
                    Ok(ChunkTurn::Ask(Request::ToAudio(waveform, SAMPLE_RATE)))
                },
                _ => Err(TtsError::UnexpectedReply),
            },
            Waiting::Audio => match reply {
                Reply::Audio(audio) => Ok(ChunkTurn::Chunk(audio)),
                _ => Err(TtsError::UnexpectedReply),
            },
            Waiting::Model => {
                let ghost reply0 = reply;
                let g0 = match self.generator.take() {
                    Some(g) => g,
                    None => {
                        return Err(TtsError::UnexpectedReply);
                    },
                };
                let (g, turn) = match g0.step(reply) {
                    Ok(next) => next,
                    Err(e) => {
                        return Err(e);
                    },
                };
                let ghost t = turn;
                let ghost gen = g;
                assert(g0.steps(reply0, gen, t));
                match turn {
                    GenTurn::Ask(ask) => {
                        self.generator = Some(g);
                        self.waiting = Waiting::Model;
                        Ok(ChunkTurn::Ask(ask))
                    },
                    GenTurn::Frame { id, token: _, acoustic, ask } => {
                        match self.buffer_frame(g, id, &acoustic) {
                            Ok(_) => Ok(ChunkTurn::Ask(ask)),
                            Err(e) => Err(e),
                        }
                    },
                    GenTurn::Token => {
                        let id = match &g.phase {
                            Phase::Ready { id, .. } => *id,
                            _ => 0,
                        };
                        let is_eos = match self.config.eos_token_id {
                            Some(eos_id) => eos_id == id,
                            None => false,
                        };
                        if is_eos {
                            self.done = true;
                        } else {
                            self.generator = Some(g);
                        }
                        self.fill()
                    },
                }
            },
        }
    }
}

/// How far the start of a session has come.
pub enum StartStage {
    /// The prompt.
    Prefill(Prefill),
    /// The first token.
    Sampling(Generator),
}

/// Starts a streaming session.
pub struct StreamingStart {
    pub device: Device,
    pub chunk_frames: usize,
    pub stage: StartStage,
}

/// What is wanted next.
pub enum StartTurn {
    /// A reply of the model.
    Ask(StreamingStart, Request),
    /// Nothing: this is the session.
    Session(StreamingSession),
}

impl StreamingStart {
    /// Whether no token was sampled yet.
    pub open spec fn wf(self) -> bool {
        match self.stage {
            StartStage::Prefill(_) => true,
            StartStage::Sampling(g) => {
                &&& g.wf()
                &&& g.frames == 0
                &&& g.phase is Penalizing || g.phase is Suppressing || g.phase is Sampling
            },
        }
    }

    /// Whether this is a reply to what was asked.
    pub open spec fn awaits(self, reply: Reply) -> bool {
        match self.stage {
            StartStage::Prefill(p) => p.awaits(reply),
            StartStage::Sampling(g) => g.awaits(reply),
        }
    }

    /// Whether a reply can be taken up in any case: what is computed with it is on
    /// the CPU and fits.
    pub open spec fn accepts(self, reply: Reply) -> bool {
        match self.stage {
            StartStage::Prefill(p) => {
                &&& p.accepts(reply)
                &&& forall|f: Prefilled| #[trigger]
                    p.steps(reply, PrefillTurn::Ready(f)) ==> device_location(self.device) is Cpu
                        && takes_logits(f.logits)
            },
            StartStage::Sampling(g) => g.accepts(reply),
        }
    }

    /// That the session opens with this first token: nothing is generated yet,
    /// and where the token is end-of-sequence nothing will be.
    pub open spec fn opens(self, g: Generator, s: StreamingSession) -> bool {
        &&& g.phase matches Phase::Ready { id, token }
        &&& s.device == self.device
        &&& s.config == g.config
        &&& s.frames_generated == 0
        &&& s.frame_buffer@.len() == 0
        &&& s.chunk_frames == self.chunk_frames
        &&& s.done == (g.config.eos_token_id == Some(id))
        &&& s.generator == if s.done {
            None
        } else {
            Some(g)
        }
        &&& s.waiting == Waiting::Nothing
        &&& s.made@.len() == 0
        &&& s.sent@.len() == 0
    }

    /// What a reply leads to.
    pub open spec fn steps(self, reply: Reply, turn: StartTurn) -> bool {
        match self.stage {
            StartStage::Prefill(p) => exists|t: PrefillTurn| #[trigger]
                p.steps(reply, t) && match t {
                    PrefillTurn::Ask(p, ask) => turn == StartTurn::Ask(
                        StreamingStart { stage: StartStage::Prefill(p), ..self },
                        ask,
                    ),
                    PrefillTurn::Ready(f) => self.begins(f, turn),
                },
            StartStage::Sampling(g0) => exists|g: Generator, t: GenTurn| #[trigger]
                g0.steps(reply, g, t) && match t {
                    GenTurn::Ask(ask) => turn == StartTurn::Ask(
                        StreamingStart { stage: StartStage::Sampling(g), ..self },
                        ask,
                    ),
                    GenTurn::Token => turn matches StartTurn::Session(s) && self.opens(g, s),
                    GenTurn::Frame { .. } => false,
                },
        }
    }

    /// That the first token is sampled behind this prompt.
    pub open spec fn begins(self, f: Prefilled, turn: StartTurn) -> bool {
        &&& turn matches StartTurn::Ask(next, ask)
        &&& next == (StreamingStart { stage: next.stage, ..self })
        &&& next.stage matches StartStage::Sampling(g)
        &&& Generator::starts(f, self.device, (g, ask))
    }

    /// Start with this prompt.
    pub fn start(prefill: Prefill, chunk_frames: usize, device: Device) -> (r: StreamingStart)
        ensures
            r.wf(),
            r == (StreamingStart { device, chunk_frames, stage: StartStage::Prefill(prefill) }),
    {
        StreamingStart { device, chunk_frames, stage: StartStage::Prefill(prefill) }
    }

    /// Take up a reply.
    pub fn step(self, reply: Reply) -> (r: Result<StartTurn, TtsError>)
        requires
            self.wf(),
        ensures
            r matches Ok(turn) ==> self.steps(reply, turn),
            r matches Ok(StartTurn::Ask(next, _)) ==> next.wf(),
            r matches Ok(StartTurn::Session(s)) ==> s.wf(),
            (r matches Err(e) && e is UnexpectedReply) <==> !self.awaits(reply),
            self.accepts(reply) ==> r is Ok,
    {
        let device = self.device;
        let chunk_frames = self.chunk_frames;
        match self.stage {
            StartStage::Prefill(p) => match p.step(reply) {
                Ok(PrefillTurn::Ask(p, ask)) => {
                    let stage = StartStage::Prefill(p);
                    Ok(StartTurn::Ask(StreamingStart { device, chunk_frames, stage }, ask))
                },
                Ok(PrefillTurn::Ready(f)) => match Generator::start(f, &device) {
                    Ok((g, ask)) => {
                        let stage = StartStage::Sampling(g);
                        Ok(StartTurn::Ask(StreamingStart { device, chunk_frames, stage }, ask))
                    },
                    Err(e) => Err(e),
                },
                Err(e) => Err(e),
            },
            StartStage::Sampling(g0) => {
                let ghost reply0 = reply;
                let (g, turn) = match g0.step(reply) {
                    Ok(next) => next,
                    Err(e) => {
                        return Err(e);
                    },
                };
                assert(g0.steps(reply0, g, turn));
                match turn {
                    GenTurn::Ask(ask) => {
                        let stage = StartStage::Sampling(g);
                        Ok(StartTurn::Ask(StreamingStart { device, chunk_frames, stage }, ask))
                    },
                    _ => {
                        let config = g.config;
                        let done = match (&g.phase, config.eos_token_id) {
                            (Phase::Ready { id, .. }, Some(eos_id)) => *id == eos_id,
                            _ => false,
                        };
                        let session = StreamingSession {
                            device,
                            config,
                            generator: if done {
                                None
                            } else {
                                Some(g)
                            },
                            frames_generated: 0,
                            frame_buffer: Vec::new(),
                            chunk_frames,
                            done,
                            waiting: Waiting::Nothing,
                            made: Ghost(Seq::empty()),
                            sent: Ghost(Seq::empty()),
                        };
                        proof {
                            assert(values(session.frame_buffer@) =~= Seq::<Seq<u32>>::empty());
                            assert(session.made@ =~= session.sent@ + values(session.frame_buffer@));
                        }
                        Ok(StartTurn::Session(session))
                    },
                }
            },
        }
    }
}

} // verus!
