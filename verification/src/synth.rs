//! Synthesis of one text: the prompt, the frames, the audio.
use crate::audio::{reference_cut, share, AudioBuffer};
use crate::clone::{are_reference_codes, ClonePrefill, CloneTurn, Reference};
use crate::code_loop::{CodeLoop, CodeTurn};
use crate::codes::{
    codes_grid, combine, fit_codebooks, frames_to_tensor, full_frames, lemma_transferred, read_rows,
    tensor_to_frame_codes, values, warmup, warmup_frames, FrameCodes, CODEBOOKS,
};
use crate::error::TtsError;
use crate::generator::takes_logits;
use crate::options::SAMPLE_RATE;
use crate::prefill::{Prefill, PrefillTurn, Prefilled};
use crate::request::{Reply, Request};
use crate::tensor::{device_location, grid, tensor_dims};
use candle_core::Device;
use vstd::prelude::*;

verus! {

/// How the audio of reference frames is cut off again: so many of all frames
/// are theirs.
#[derive(Clone, Copy, Debug, PartialEq, Eq, Structural)]
pub struct Cut {
    pub ref_len: usize,
    pub total: usize,
}

/// How far the synthesis has come.
pub enum Stage {
    /// The prompt of a preset speaker or a described voice.
    Prefill(Prefill),
    /// The prompt of a cloned voice.
    Clone(ClonePrefill),
    /// The frames.
    Generating(CodeLoop),
    /// The waveform of the frames.
    Decoding { codes: FrameCodes, cut: Option<Cut> },
    /// The waveform as audio.
    Reading { codes: FrameCodes, cut: Option<Cut> },
}

/// Synthesis of one text.
pub struct Synthesis {
    pub device: Device,
    /// What in-context cloning refers to.
    pub reference: Option<Reference>,
    pub stage: Stage,
}

/// What is wanted next.
pub enum SynthTurn {
    /// A reply of the model.
    Ask(Synthesis, Request),
    /// Nothing: this is the audio, and these are the frames that were generated.
    Done { audio: AudioBuffer, codes: FrameCodes },
}

/// The frames that are decoded where a voice is cloned in context: the reference
/// frames, and the generated ones without those that speak the reference text.
pub open spec fn decoded_frames(
    ref_frames: Seq<Seq<u32>>,
    codes: Seq<Seq<u32>>,
    ref_text_len: nat,
) -> Seq<Seq<u32>> {
    ref_frames + codes.skip(warmup(ref_text_len as int, codes.len() as int))
}

/// That `r` is the audio without what belongs to the reference frames.
pub open spec fn is_cut(audio: AudioBuffer, cut: Option<Cut>, r: AudioBuffer) -> bool {
    match cut {
        Some(c) => {
            &&& r.sample_rate == audio.sample_rate
            &&& r.samples@ == audio.samples@.skip(
                share(c.ref_len as int, audio.samples@.len() as int, c.total as int),
            )
        },
        None => r == audio,
    }
}

impl Synthesis {
    /// What a stage promises, and no more reference frames than frames.
    pub open spec fn wf(self) -> bool {
        match self.stage {
            Stage::Prefill(_) => true,
            Stage::Clone(c) => c.wf(),
            Stage::Generating(l) => l.wf(),
            Stage::Decoding { cut, .. } => cut matches Some(c) ==> c.ref_len <= c.total,
            Stage::Reading { cut, .. } => cut matches Some(c) ==> c.ref_len <= c.total,
        }
    }

    /// Whether this is a reply to what was asked.
    pub open spec fn awaits(self, reply: Reply) -> bool {
        match self.stage {
            Stage::Prefill(p) => p.awaits(reply),
            Stage::Clone(c) => c.awaits(reply),
            Stage::Generating(l) => l.generator.awaits(reply),
            Stage::Decoding { .. } => reply is Tensor,
            Stage::Reading { .. } => reply is Audio,
        }
    }

    /// Whether a reply can be taken up in any case: what is computed with it is on
    /// the CPU and fits.
    pub open spec fn accepts(self, reply: Reply) -> bool {
        match self.stage {
            Stage::Prefill(p) => {
                &&& p.accepts(reply)
                &&& forall|f: Prefilled| #[trigger]
                    p.steps(reply, PrefillTurn::Ready(f)) ==> self.begins_on_cpu(f)
            },
            Stage::Clone(c) => {
                &&& c.accepts(reply)
                &&& forall|f: Prefilled| #[trigger]
                    c.steps(reply, CloneTurn::Ready(f)) ==> self.begins_on_cpu(f)
            },
            Stage::Generating(l) => {
                &&& l.accepts(reply)
                &&& forall|codes: FrameCodes| #[trigger]
                    l.steps(reply, CodeTurn::Codes(codes)) ==> self.decodes_on_cpu(l.frames@.len())
            },
            Stage::Decoding { .. } => reply is Tensor,
            Stage::Reading { .. } => reply is Audio,
        }
    }

    /// Whether generation can start behind this prompt on the CPU.
    pub open spec fn begins_on_cpu(self, f: Prefilled) -> bool {
        device_location(self.device) is Cpu && takes_logits(f.logits)
    }

    /// Whether so many frames can be decoded on the CPU.
    pub open spec fn decodes_on_cpu(self, frames: nat) -> bool {
        &&& device_location(self.device) is Cpu
        &&& self.reference matches Some(n) ==> {
            &&& are_reference_codes(grid(n.codes))
            &&& (tensor_dims(n.codes)[0] + frames) * 256 <= usize::MAX
        }
    }

    /// That generation starts behind this prompt.
    pub open spec fn begins(self, f: Prefilled, turn: SynthTurn) -> bool {
        &&& turn matches SynthTurn::Ask(next, ask)
        &&& next == (Synthesis { stage: next.stage, ..self })
        &&& next.stage matches Stage::Generating(l)
        &&& CodeLoop::starts(f, self.device, (l, ask))
    }

    /// That these frames are decoded next, and then cut like this.
    pub open spec fn decodes(
        self,
        frames: Seq<Seq<u32>>,
        codes: FrameCodes,
        cut: Option<Cut>,
        turn: SynthTurn,
    ) -> bool {
        &&& turn matches SynthTurn::Ask(next, Request::Decode(t))
        &&& next == (Synthesis { stage: Stage::Decoding { codes, cut }, ..self })
        &&& fit_codebooks(frames)
        &&& grid(t) == codes_grid(frames, device_location(self.device))
    }

    /// What the generated frames lead to.
    pub open spec fn generated(self, codes: FrameCodes, turn: SynthTurn) -> bool {
        match self.reference {
            None => self.decodes(values(codes@), codes, None, turn),
            Some(n) => exists|ref_frames: Seq<Vec<u32>>|
                {
                    &&& #[trigger] read_rows(grid(n.codes), ref_frames)
                    &&& if codes@.len() == 0 {
                        &&& turn matches SynthTurn::Done { audio, codes: c }
                        &&& c == codes
                        &&& audio.samples@.len() == 0
                        &&& audio.sample_rate == SAMPLE_RATE
                    } else {
                        let all = decoded_frames(
                            values(ref_frames),
                            values(codes@),
                            n.text_ids@.len(),
                        );
                        let cut = Cut {
                            ref_len: ref_frames.len() as usize,
                            total: all.len() as usize,
                        };
                        self.decodes(all, codes, Some(cut), turn)
                    }
                },
        }
    }

    /// What a reply leads to.
    pub open spec fn steps(self, reply: Reply, turn: SynthTurn) -> bool {
        match self.stage {
            Stage::Prefill(p) => exists|t: PrefillTurn| #[trigger]
                p.steps(reply, t) && match t {
                    PrefillTurn::Ask(p, ask) => turn == SynthTurn::Ask(
                        Synthesis { stage: Stage::Prefill(p), ..self },
                        ask,
                    ),
                    PrefillTurn::Ready(f) => self.begins(f, turn),
                },
            Stage::Clone(c) => exists|t: CloneTurn| #[trigger]
                c.steps(reply, t) && match t {
                    CloneTurn::Ask(c, ask) => turn == SynthTurn::Ask(
                        Synthesis { stage: Stage::Clone(c), ..self },
                        ask,
                    ),
                    CloneTurn::Ready(f) => self.begins(f, turn),
                },
            Stage::Generating(l) => exists|t: CodeTurn| #[trigger]
                l.steps(reply, t) && match t {
                    CodeTurn::Ask(l, ask) => turn == SynthTurn::Ask(
                        Synthesis { stage: Stage::Generating(l), ..self },
                        ask,
                    ),
                    CodeTurn::Codes(codes) => self.generated(codes, turn),
                },
            Stage::Decoding { codes, cut } => {
                &&& reply matches Reply::Tensor(waveform)
                &&& turn == SynthTurn::Ask(
                    Synthesis { stage: Stage::Reading { codes, cut }, ..self },
                    Request::ToAudio(waveform, SAMPLE_RATE),
                )
            },
            Stage::Reading { codes, cut } => {
                &&& reply matches Reply::Audio(whole)
                &&& turn matches SynthTurn::Done { audio, codes: c }
                &&& c == codes
                &&& is_cut(whole, cut, audio)
            },
        }
    }

    /// Start generation behind a prompt.
    fn begin(device: Device, reference: Option<Reference>, f: Prefilled) -> (r: Result<
        SynthTurn,
        TtsError,
    >)
        ensures
            r matches Ok(turn) ==> forall|s: Synthesis|
                s.device == device && s.reference == reference ==> #[trigger] s.begins(f, turn),
            r matches Ok(turn) ==> (turn matches SynthTurn::Ask(next, _) && next.wf()),
            r matches Err(e) ==> e.is_computing(),
            device_location(device) is Cpu && takes_logits(f.logits) ==> r is Ok,
    {
        match CodeLoop::start(f, &device) {
            Ok((l, ask)) => {
                let stage = Stage::Generating(l);
                Ok(SynthTurn::Ask(Synthesis { device, reference, stage }, ask))
            },
            Err(e) => Err(e),
        }
    }

    /// Decode the generated frames.
    fn decode(device: Device, reference: Option<Reference>, codes: FrameCodes) -> (r: Result<
        SynthTurn,
        TtsError,
    >)
        ensures
            r matches Ok(turn) ==> forall|s: Synthesis|
                s.device == device && s.reference == reference ==> #[trigger] s.generated(
                    codes,
                    turn,
                ),
            r matches Ok(SynthTurn::Ask(next, _)) ==> next.wf(),
            r matches Err(e) ==> e.is_computing() || e is BadFrame || e is BadShape,
            device_location(device) is Cpu && full_frames(values(codes@)) && codes@.len() * 256
                <= usize::MAX && (reference matches Some(n) ==> are_reference_codes(grid(n.codes))
                && (tensor_dims(n.codes)[0] + codes@.len()) * 256 <= usize::MAX) ==> r is Ok,
    {
        match &reference {
            None => match frames_to_tensor(&codes, &device) {
                Ok(t) => {
                    let stage = Stage::Decoding { codes, cut: None };
                    let next = Synthesis { device, reference, stage };
                    Ok(SynthTurn::Ask(next, Request::Decode(t)))
                },
                Err(e) => Err(e),
            },
            Some(n) => {
                let ref_frames = match tensor_to_frame_codes(&n.codes) {
                    Ok(frames) => frames,
                    Err(e) => {
                        return Err(e);
                    },
                };
                let ghost ref_seq = ref_frames@;
                assert(read_rows(grid(n.codes), ref_seq));
                if codes.len() == 0 {
                    let audio = AudioBuffer::new(Vec::new(), SAMPLE_RATE);
                    return Ok(SynthTurn::Done { audio, codes });
                }
                let ref_len = ref_frames.len();
                let start = warmup_frames(n.text_ids.len(), codes.len());
                let all = combine(ref_frames, &codes, start);
                proof {
                    assert(values(all@) == decoded_frames(
                        values(ref_seq),
                        values(codes@),
                        n.text_ids@.len(),
                    ));
                    assert(values(all@).len() == all@.len());
                    assert(values(ref_seq).len() == ref_seq.len());
                }
                proof {
                    if full_frames(values(codes@)) && are_reference_codes(grid(n.codes)) {
                        let ours = values(codes@).skip(start as int);
                        assert forall|f: int| 0 <= f < all@.len() implies (#[trigger] values(
                            all@,
                        )[f]).len() <= CODEBOOKS by {
                            if f < ref_seq.len() {
                                assert(values(all@)[f] == values(ref_seq)[f]);
                                assert(values(ref_seq)[f] == ref_seq[f]@);
                            } else {
                                let k = f - ref_seq.len();
                                assert(values(all@)[f] == ours[k]);
                                assert(ours[k] == values(codes@)[k + start]);
                            }
                        }
                    }
                }
                let cut = Some(Cut { ref_len, total: all.len() });
                match frames_to_tensor(&all, &device) {
                    Ok(t) => {
                        let stage = Stage::Decoding { codes, cut };
                        let next = Synthesis { device, reference, stage };
                        Ok(SynthTurn::Ask(next, Request::Decode(t)))
                    },
                    Err(e) => Err(e),
                }
            },
        }
    }

    /// Take up a reply.
    pub fn step(self, reply: Reply) -> (r: Result<SynthTurn, TtsError>)
        requires
            self.wf(),
        ensures
            r matches Ok(turn) ==> self.steps(reply, turn),
            r matches Ok(SynthTurn::Ask(next, _)) ==> next.wf(),
            (r matches Err(e) && e is UnexpectedReply) <==> !self.awaits(reply),
            self.accepts(reply) ==> r is Ok,
    {
        let device = self.device;
        let reference = self.reference;
        match self.stage {
            Stage::Prefill(p) => match p.step(reply) {
                Ok(PrefillTurn::Ask(p, ask)) => {
                    let stage = Stage::Prefill(p);
                    Ok(SynthTurn::Ask(Synthesis { device, reference, stage }, ask))
                },
                Ok(PrefillTurn::Ready(f)) => Synthesis::begin(device, reference, f),
                Err(e) => Err(e),
            },
            Stage::Clone(c) => match c.step(reply) {
                Ok(CloneTurn::Ask(c, ask)) => {
                    let stage = Stage::Clone(c);
                    Ok(SynthTurn::Ask(Synthesis { device, reference, stage }, ask))
                },
                Ok(CloneTurn::Ready(f)) => Synthesis::begin(device, reference, f),
                Err(e) => Err(e),
            },
            Stage::Generating(l) => match l.step(reply) {
                Ok(CodeTurn::Ask(l, ask)) => {
                    let stage = Stage::Generating(l);
                    Ok(SynthTurn::Ask(Synthesis { device, reference, stage }, ask))
                },
                Ok(CodeTurn::Codes(codes)) => {
                    proof {
                        lemma_transferred(l.frames@, codes@);
                    }
                    Synthesis::decode(device, reference, codes)
                },
                Err(e) => Err(e),
            },
            Stage::Decoding { codes, cut } => match reply {
                Reply::Tensor(waveform) => {
                    let stage = Stage::Reading { codes, cut };
                    let ask = Request::ToAudio(waveform, SAMPLE_RATE);
                    Ok(SynthTurn::Ask(Synthesis { device, reference, stage }, ask))
                },
                _ => Err(TtsError::UnexpectedReply),
            },
            Stage::Reading { codes, cut } => match reply {
                Reply::Audio(whole) => {
                    let audio = match cut {
                        Some(c) => {
                            let n = reference_cut(c.ref_len, whole.len(), c.total);
                            whole.without_first(n)
                        },
                        None => whole,
                    };
                    Ok(SynthTurn::Done { audio, codes })
                },
                _ => Err(TtsError::UnexpectedReply),
            },
        }
    }
}

} // verus!
