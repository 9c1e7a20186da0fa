//! From a text to the state in which frames can be generated, for cloned voices.
use crate::codes::{copy_frame, CODEBOOKS};
use crate::error::TtsError;
use crate::generation::last_position;
use crate::grid::{lemma_shape1, DType, Grid};
use crate::ops::{cast, part, sum};
use crate::options::{
    cache_capacity, icl_extra, GenerationConfig, SynthesisOptions, CACHE_MARGIN, ICL_CACHE_MARGIN,
};
use crate::prefill::{is_last, Prefilled};
use crate::request::{Language, Reply, Request};
use crate::tensor::{
    copy, dims, grid, is_converted, is_sum, squeeze, tensor_dims, tensor_dtype, tensor_location,
};
use crate::trailing::{TrailingText, TrailingTurn};
use candle_core::Tensor;
use vstd::prelude::*;

verus! {

/// Reference audio prompt for voice cloning: the speaker embedding, and what
/// in-context learning needs.
pub struct VoiceClonePrompt {
    /// Speaker embedding of the speaker encoder, shape `[enc_dim]`.
    pub speaker_embedding: Tensor,
    /// Codec codes of the reference audio, shape `[T, 16]`. `None` leaves only
    /// the speaker embedding.
    pub ref_codes: Option<Tensor>,
    /// Tokens of the reference text.
    pub ref_text_ids: Option<Vec<u32>>,
}

impl VoiceClonePrompt {
    /// Whether the voice is cloned in context: codes and text are there.
    pub open spec fn in_context(self) -> bool {
        self.ref_codes is Some && self.ref_text_ids is Some
    }

    /// The reference codes and text, where both are there.
    pub fn reference(&self) -> (r: Option<Reference>)
        ensures
            r is Some <==> self.in_context(),
            r matches Some(n) ==> n.codes == self.ref_codes->0 && n.text_ids@
                == self.ref_text_ids->0@,
    {
        match (&self.ref_codes, &self.ref_text_ids) {
            (Some(codes), Some(ids)) => Some(
                Reference { codes: copy(codes), text_ids: copy_frame(ids) },
            ),
            _ => None,
        }
    }
}

/// The reference codes and text of in-context cloning.
pub struct Reference {
    pub codes: Tensor,
    pub text_ids: Vec<u32>,
}

/// That `r` are the codes of one codebook in all frames, as unsigned numbers.
pub open spec fn is_column(codes: Grid, book: usize, r: Grid) -> bool {
    &&& codes.has_range(1, book, 1)
    &&& is_converted(codes.narrow(1, book, 1).squeeze(1), DType::U32, r)
}

/// Whether the codes of all codebooks can be taken on the CPU.
pub open spec fn are_reference_codes(codes: Grid) -> bool {
    &&& codes.at_hand()
    &&& codes.dims.len() == 2
    &&& codes.dims[1] == CODEBOOKS
    &&& codes.dtype == DType::I64 || codes.dtype == DType::U32
}

/// The codes of one codebook in all frames.
pub fn column(codes: &Tensor, book: usize) -> (r: Result<Tensor, TtsError>)
    ensures
        r matches Ok(t) ==> is_column(grid(*codes), book, grid(t)),
        r matches Err(e) ==> e.is_computing(),
        are_reference_codes(grid(*codes)) && book < CODEBOOKS ==> r is Ok,
{
    let one = match part(codes, 1, book, 1) {
        Ok(t) => t,
        Err(e) => {
            return Err(e);
        },
    };
    match squeeze(&one, 1) {
        Ok(t) => {
            proof {
                if are_reference_codes(grid(*codes)) {
                    let d = tensor_dims(*codes);
                    let n = d[0];
                    assert(d =~= seq![n, CODEBOOKS]);
                    assert(d.drop_last() =~= seq![n]);
                    lemma_shape1(n);
                    assert(tensor_dims(one) =~= seq![n, 1usize]);
                    assert(tensor_dims(t) =~= seq![n]);
                }
            }
            cast(&t, DType::U32)
        },
        Err(e) => Err(TtsError::Tensor(e)),
    }
}

/// Where the prompt has come to.
pub struct Reached {
    pub config: GenerationConfig,
    pub ids: Vec<u32>,
    /// Positions that the talker has seen.
    pub offset: usize,
    pub last_hidden: Tensor,
    pub logits: Tensor,
}

/// What cloning waits for.
pub enum ClonePhase {
    /// The tokens of the text.
    Encoding,
    /// Empty caches.
    Caching { config: GenerationConfig, ids: Vec<u32>, embedding: Tensor },
    /// What the talker makes of the prompt.
    Running { config: GenerationConfig, ids: Vec<u32> },
    /// The embedding of the semantic codes of the reference.
    Semantic(Reached),
    /// The embedding of the codes of an acoustic codebook of the reference.
    Acoustic { at: Reached, summed: Tensor, group: usize },
    /// The in-context prompt.
    Prompting(Reached),
    /// A mask for the prompt.
    Masking { at: Reached, prompt: Tensor, len: usize, trailing: Tensor },
    /// What the layers make of the prompt.
    Layers { at: Reached, len: usize, trailing: Tensor },
    /// The same, normalized.
    Norm { at: Reached, len: usize, trailing: Tensor },
    /// The logits of the last position.
    Head { config: GenerationConfig, offset: usize, last_hidden: Tensor, trailing: Tensor },
    /// What stands for no text.
    Padding {
        config: GenerationConfig,
        offset: usize,
        last_hidden: Tensor,
        logits: Tensor,
        trailing: Tensor,
        len: usize,
    },
    /// The trailing text.
    Trailing { at: Reached, text: TrailingText },
}

/// Runs the talker on the prompt of a text in a cloned voice.
pub struct ClonePrefill {
    pub options: SynthesisOptions,
    /// Element type in which the talker computes.
    pub compute_dtype: DType,
    pub speaker_embedding: Tensor,
    pub reference: Option<Reference>,
    pub language: Language,
    pub phase: ClonePhase,
}

/// What is wanted next.
pub enum CloneTurn {
    /// A reply of the model.
    Ask(ClonePrefill, Request),
    /// Nothing: generation can start.
    Ready(Prefilled),
}

/// The positions that the reference adds to the caches: its frames, its text, the
/// text and a margin.
pub open spec fn extra(reference: Option<Reference>, text_len: int) -> int {
    match reference {
        Some(n) => {
            let d = tensor_dims(n.codes);
            (if d.len() > 0 {
                d[0] as int
            } else {
                0
            }) + n.text_ids@.len() + text_len + ICL_CACHE_MARGIN
        },
        None => 0,
    }
}

/// The positions that the reference adds to the caches, or `None` where that is
/// no machine number.
fn extra_positions(reference: &Option<Reference>, text_len: usize) -> (r: Option<usize>)
    ensures
        match r {
            Some(n) => n == extra(*reference, text_len as int),
            None => extra(*reference, text_len as int) > usize::MAX,
        },
{
    match reference {
        Some(n) => {
            let d = dims(&n.codes);
            let frames: usize = if d.len() > 0 {
                d[0]
            } else {
                0
            };
            icl_extra(frames, n.text_ids.len(), text_len)
        },
        None => Some(0),
    }
}

impl ClonePrefill {
    /// Reference codes are embedded where there is a reference, and a prompt that
    /// was masked is not empty.
    pub open spec fn wf(self) -> bool {
        &&& self.compute_dtype != DType::Other
        &&& match self.phase {
            ClonePhase::Semantic(_) => self.reference is Some,
            ClonePhase::Acoustic { group, .. } => self.reference is Some && 1 <= group < CODEBOOKS,
            ClonePhase::Masking { len, .. } => len > 0,
            ClonePhase::Layers { len, .. } => len > 0,
            ClonePhase::Norm { len, .. } => len > 0,
            _ => true,
        }
    }

    /// Whether this is a reply to what was asked.
    pub open spec fn awaits(self, reply: Reply) -> bool {
        match self.phase {
            ClonePhase::Encoding => reply is Tokens,
            ClonePhase::Caching { .. } => reply is Done,
            ClonePhase::Running { .. } | ClonePhase::Prompting(_) => reply is Pair,
            _ => reply is Tensor,
        }
    }

    /// Whether a reply can be taken up on the CPU.
    pub open spec fn accepts(self, reply: Reply) -> bool {
        &&& self.awaits(reply)
        &&& match (self.phase, reply) {
            (ClonePhase::Encoding, Reply::Tokens(ids)) => {
                &&& grid(self.speaker_embedding).at_hand()
                &&& tensor_dtype(self.speaker_embedding).is_float()
                &&& self.compute_dtype.is_float()
                &&& self.options.max_length + CACHE_MARGIN + extra(self.reference, ids@.len() as int)
                    <= usize::MAX
            },
            (ClonePhase::Running { .. }, Reply::Pair(hidden, _)) => {
                &&& tensor_dims(hidden).len() > 1
                &&& tensor_dims(hidden)[1] > 0
                &&& self.reference matches Some(n) ==> are_reference_codes(grid(n.codes))
            },
            (ClonePhase::Semantic(_), _) => are_reference_codes(grid(self.reference->0.codes)),
            (ClonePhase::Acoustic { summed, .. }, Reply::Tensor(embed)) => {
                &&& are_reference_codes(grid(self.reference->0.codes))
                &&& grid(summed).at_hand()
                &&& tensor_location(embed) is Cpu
                &&& tensor_dims(summed) == tensor_dims(embed)
                &&& tensor_dtype(summed) == tensor_dtype(embed)
                &&& tensor_dtype(summed).is_float()
            },
            (ClonePhase::Prompting(_), Reply::Pair(prompt, _)) => tensor_dims(prompt).len() > 1,
            (ClonePhase::Norm { at, len, .. }, Reply::Tensor(hidden)) => {
                &&& grid(hidden).has_range(1, (len - 1) as usize, 1)
                &&& at.offset + len <= usize::MAX
            },
            (ClonePhase::Head { trailing, .. }, _) => tensor_dims(trailing).len() > 1,
            (ClonePhase::Trailing { text, .. }, _) => text.accepts(reply),
            _ => true,
        }
    }

    /// That the trailing text is built next.
    pub open spec fn builds(self, at: Reached, turn: CloneTurn) -> bool {
        &&& turn matches CloneTurn::Ask(next, ask)
        &&& next == (ClonePrefill { phase: next.phase, ..self })
        &&& next.phase matches ClonePhase::Trailing { at: at1, text }
        &&& at1 == at
        &&& TrailingText::starts(at.ids@, (text, ask))
    }

    /// That the embedding of this acoustic codebook is asked for next.
    pub open spec fn embeds(self, at: Reached, summed: Grid, group: usize, turn: CloneTurn) -> bool {
        &&& turn matches CloneTurn::Ask(next, Request::EmbedGroup(index, codes))
        &&& next == (ClonePrefill { phase: next.phase, ..self })
        &&& next.phase matches ClonePhase::Acoustic { at: at1, summed: s1, group: g1 }
        &&& at1 == at
        &&& grid(s1) == summed
        &&& g1 == group
        &&& index == group - 1
        &&& is_column(grid(self.reference->0.codes), group, grid(codes))
    }

    /// What the tokens of the text lead to.
    pub open spec fn encoded(self, ids: Vec<u32>, turn: CloneTurn) -> bool {
        &&& turn matches CloneTurn::Ask(next, ask)
        &&& next == (ClonePrefill { phase: next.phase, ..self })
        &&& next.phase matches ClonePhase::Caching { config, ids: ids1, embedding }
        &&& ids1 == ids
        &&& config == self.options.clone_config(self.reference is Some, ids@.len())
        &&& is_converted(grid(self.speaker_embedding), self.compute_dtype, grid(embedding))
        &&& ask == Request::NewCaches(
            (config.max_new_tokens + CACHE_MARGIN + extra(self.reference, ids@.len() as int)) as usize,
        )
    }

    /// What the talker's reply to the prompt leads to.
    pub open spec fn ran(
        self,
        config: GenerationConfig,
        ids: Vec<u32>,
        hidden: Tensor,
        logits: Tensor,
        turn: CloneTurn,
    ) -> bool {
        exists|at: Reached|
            #![trigger is_last(hidden, at.offset, at.last_hidden)]
            {
                &&& is_last(hidden, at.offset, at.last_hidden)
                &&& at.config == config
                &&& at.ids == ids
                &&& at.logits == logits
                &&& match self.reference {
                    Some(n) => {
                        &&& turn matches CloneTurn::Ask(next, Request::EmbedSemantic(codes))
                        &&& next == (ClonePrefill { phase: ClonePhase::Semantic(at), ..self })
                        &&& is_column(grid(n.codes), 0, grid(codes))
                    },
                    None => self.builds(at, turn),
                }
            }
    }

    /// What the embedding of an acoustic codebook leads to: it is added, and
    /// after the last one the prompt is laid out.
    pub open spec fn added(
        self,
        at: Reached,
        summed: Tensor,
        group: usize,
        embed: Tensor,
        turn: CloneTurn,
    ) -> bool {
        exists|s: Grid|
            {
                &&& #[trigger] is_sum(grid(summed), grid(embed), s)
                &&& if group + 1 < CODEBOOKS {
                    self.embeds(at, s, (group + 1) as usize, turn)
                } else {
                    &&& turn matches CloneTurn::Ask(
                        next,
                        Request::IclPrompt { ids, ref_text_ids, ref_embeds },
                    )
                    &&& next == (ClonePrefill { phase: ClonePhase::Prompting(at), ..self })
                    &&& ids@ == at.ids@
                    &&& ref_text_ids@ == self.reference->0.text_ids@
                    &&& grid(ref_embeds) == s
                }
            }
    }

    /// What a reply leads to.
    pub open spec fn steps(self, reply: Reply, turn: CloneTurn) -> bool {
        match (self.phase, reply) {
            (ClonePhase::Encoding, Reply::Tokens(ids)) => self.encoded(ids, turn),
            (ClonePhase::Caching { config, ids, embedding }, Reply::Done) => {
                &&& turn matches CloneTurn::Ask(
                    next,
                    Request::PrefillVoiceClone { ids: ids1, embedding: e1, language, in_context },
                )
                &&& next == (ClonePrefill { phase: ClonePhase::Running { config, ids }, ..self })
                &&& ids1@ == ids@
                &&& e1 == embedding
                &&& language == self.language
                &&& in_context == (self.reference is Some)
            },
            (ClonePhase::Running { config, ids }, Reply::Pair(hidden, logits)) => {
                self.ran(config, ids, hidden, logits, turn)
            },
            (ClonePhase::Semantic(at), Reply::Tensor(summed)) => {
                self.embeds(at, grid(summed), 1, turn)
            },
            (ClonePhase::Acoustic { at, summed, group }, Reply::Tensor(embed)) => {
                self.added(at, summed, group, embed, turn)
            },
            (ClonePhase::Prompting(at), Reply::Pair(prompt, trailing)) => {
                let d = tensor_dims(prompt);
                &&& d.len() > 1
                &&& if d[1] > 0 {
                    turn == CloneTurn::Ask(
                        ClonePrefill {
                            phase: ClonePhase::Masking { at, prompt, len: d[1], trailing },
                            ..self
                        },
                        Request::CausalMask { len: d[1], offset: at.offset },
                    )
                } else {
                    self.builds(at, turn)
                }
            },
            (ClonePhase::Masking { at, prompt, len, trailing }, Reply::Tensor(mask)) => {
                turn == CloneTurn::Ask(
                    ClonePrefill { phase: ClonePhase::Layers { at, len, trailing }, ..self },
                    Request::Forward { input: prompt, mask: Some(mask), offset: at.offset },
                )
            },
            (ClonePhase::Layers { at, len, trailing }, Reply::Tensor(hidden)) => {
                turn == CloneTurn::Ask(
                    ClonePrefill { phase: ClonePhase::Norm { at, len, trailing }, ..self },
                    Request::Norm(hidden),
                )
            },
            (ClonePhase::Norm { at, len, trailing }, Reply::Tensor(hidden)) => {
                &&& turn matches CloneTurn::Ask(next, Request::CodecHead(last))
                &&& grid(hidden).has_range(1, (len - 1) as usize, 1)
                &&& grid(last) == grid(hidden).narrow(1, (len - 1) as usize, 1)
                &&& at.offset + len <= usize::MAX
                &&& next == (ClonePrefill {
                    phase: ClonePhase::Head {
                        config: at.config,
                        offset: (at.offset + len) as usize,
                        last_hidden: last,
                        trailing,
                    },
                    ..self
                })
            },
            (ClonePhase::Head { config, offset, last_hidden, trailing }, Reply::Tensor(logits)) => {
                &&& tensor_dims(trailing).len() > 1
                &&& turn == CloneTurn::Ask(
                    ClonePrefill {
                        phase: ClonePhase::Padding {
                            config,
                            offset,
                            last_hidden,
                            logits,
                            trailing,
                            len: tensor_dims(trailing)[1],
                        },
                        ..self
                    },
                    Request::TtsPad,
                )
            },
            (
                ClonePhase::Padding { config, offset, last_hidden, logits, trailing, len },
                Reply::Tensor(pad),
            ) => {
                turn == CloneTurn::Ready(
                    Prefilled {
                        config,
                        offset,
                        last_hidden,
                        logits,
                        trailing,
                        trailing_len: len,
                        pad,
                    },
                )
            },
            (ClonePhase::Trailing { at, text }, _) => {
                exists|t: TrailingTurn| #[trigger]
                    text.steps(reply, t) && match t {
                        TrailingTurn::Ask(text, ask) => turn == CloneTurn::Ask(
                            ClonePrefill { phase: ClonePhase::Trailing { at, text }, ..self },
                            ask,
                        ),
                        TrailingTurn::Built { trailing, len, pad } => turn == CloneTurn::Ready(
                            Prefilled {
                                config: at.config,
                                offset: at.offset,
                                last_hidden: at.last_hidden,
                                logits: at.logits,
                                trailing,
                                trailing_len: len,
                                pad,
                            },
                        ),
                    }
            },
            _ => false,
        }
    }

    /// Start with this text.
    pub fn start(
        text: String,
        prompt: &VoiceClonePrompt,
        language: Language,
        options: SynthesisOptions,
        compute_dtype: DType,
    ) -> (r: (ClonePrefill, Request))
        requires
            compute_dtype != DType::Other,
        ensures
            r.0.wf(),
            r.0.options == options,
            r.0.compute_dtype == compute_dtype,
            r.0.speaker_embedding == prompt.speaker_embedding,
            r.0.reference is Some <==> prompt.in_context(),
            r.0.reference matches Some(n) ==> n.codes == prompt.ref_codes->0 && n.text_ids@
                == prompt.ref_text_ids->0@,
            r.0.language == language,
            r.0.phase == ClonePhase::Encoding,
            r.1 == Request::Encode(text),
    {
        (
            ClonePrefill {
                options,
                compute_dtype,
                speaker_embedding: copy(&prompt.speaker_embedding),
                reference: prompt.reference(),
                language,
                phase: ClonePhase::Encoding,
            },
            Request::Encode(text),
        )
    }

    /// Ask for the embedding of an acoustic codebook.
    fn embed_group(self, at: Reached, summed: Tensor, group: usize) -> (r: Result<CloneTurn, TtsError>)
        requires
            self.reference is Some,
            self.compute_dtype != DType::Other,
            1 <= group < CODEBOOKS,
        ensures
            r matches Ok(turn) ==> self.embeds(at, grid(summed), group, turn),
            r matches Ok(turn) ==> (turn matches CloneTurn::Ask(next, _) && next.wf()),
            r matches Err(e) ==> e.is_computing(),
            are_reference_codes(grid(self.reference->0.codes)) ==> r is Ok,
    {
        match &self.reference {
            Some(n) => match column(&n.codes, group) {
                Ok(codes) => {
                    let phase = ClonePhase::Acoustic { at, summed, group };
                    let ask = Request::EmbedGroup(group - 1, codes);
                    Ok(CloneTurn::Ask(ClonePrefill { phase, ..self }, ask))
                },
                Err(e) => Err(e),
            },
            None => Err(TtsError::Overflow),
        }
    }

    /// Start building the trailing text.
    fn build_trailing(self, at: Reached) -> (r: CloneTurn)
        requires
            self.compute_dtype != DType::Other,
        ensures
            self.builds(at, r),
            r matches CloneTurn::Ask(next, _) && next.wf(),
    {
        let (text, ask) = TrailingText::start(&at.ids);
        CloneTurn::Ask(ClonePrefill { phase: ClonePhase::Trailing { at, text }, ..self }, ask)
    }

    /// Take up the tokens of the text.
    fn encode(self, ids: Vec<u32>) -> (r: Result<CloneTurn, TtsError>)
        requires
            self.wf(),
            self.phase is Encoding,
        ensures
            r matches Ok(turn) ==> self.encoded(ids, turn) && (turn matches CloneTurn::Ask(next, _)
                && next.wf()),
            r matches Err(e) ==> e.is_computing(),
            self.accepts(Reply::Tokens(ids)) ==> r is Ok,
    {
        let config = self.options.to_clone_config(self.reference.is_some(), ids.len());
        let embedding = match cast(&self.speaker_embedding, self.compute_dtype) {
            Ok(t) => t,
            Err(e) => {
                return Err(e);
            },
        };
        let extra = match extra_positions(&self.reference, ids.len()) {
            Some(n) => n,
            None => {
                return Err(TtsError::Overflow);
            },
        };
        match cache_capacity(config.max_new_tokens, extra) {
            Some(n) => {
                let phase = ClonePhase::Caching { config, ids, embedding };
                Ok(CloneTurn::Ask(ClonePrefill { phase, ..self }, Request::NewCaches(n)))
            },
            None => Err(TtsError::Overflow),
        }
    }

    /// Take up what the talker gave for the prompt.
    fn run(self, config: GenerationConfig, ids: Vec<u32>, hidden: Tensor, logits: Tensor) -> (r: Result<
        CloneTurn,
        TtsError,
    >)
        requires
            self.compute_dtype != DType::Other,
        ensures
            r matches Ok(turn) ==> self.ran(config, ids, hidden, logits, turn) && (
            turn matches CloneTurn::Ask(next, _) && next.wf()),
            r matches Err(e) ==> e.is_computing() || e is BadShape || e is EmptyPrefill,
            (r matches Err(e) && e is EmptyPrefill) <==> tensor_dims(hidden).len() > 1
                && tensor_dims(hidden)[1] == 0,
            tensor_dims(hidden).len() > 1 && tensor_dims(hidden)[1] > 0 && (
            self.reference matches Some(n) ==> are_reference_codes(grid(n.codes))) ==> r is Ok,
    {
        let (last_hidden, offset) = match last_position(&hidden) {
            Ok(last) => last,
            Err(e) => {
                return Err(e);
            },
        };
        let at = Reached { config, ids, offset, last_hidden, logits };
        assert(is_last(hidden, at.offset, at.last_hidden));
        match &self.reference {
            Some(n) => match column(&n.codes, 0) {
                Ok(codes) => {
                    let phase = ClonePhase::Semantic(at);
                    Ok(CloneTurn::Ask(ClonePrefill { phase, ..self }, Request::EmbedSemantic(codes)))
                },
                Err(e) => Err(e),
            },
            None => Ok(self.build_trailing(at)),
        }
    }

    /// Take up the embedding of an acoustic codebook.
    fn add_group(self, at: Reached, summed: Tensor, group: usize, embed: Tensor) -> (r: Result<
        CloneTurn,
        TtsError,
    >)
        requires
            self.reference is Some,
            self.compute_dtype != DType::Other,
            1 <= group < CODEBOOKS,
        ensures
            r matches Ok(turn) ==> self.added(at, summed, group, embed, turn) && (
            turn matches CloneTurn::Ask(next, _) && next.wf()),
            r matches Err(e) ==> e.is_computing() || e is NotFloat,
            are_reference_codes(grid(self.reference->0.codes)) && grid(summed).at_hand()
                && tensor_location(embed) is Cpu && tensor_dims(summed) == tensor_dims(embed)
                && tensor_dtype(summed) == tensor_dtype(embed) && tensor_dtype(summed).is_float()
                ==> r is Ok,
    {
        let total = match sum(&summed, &embed) {
            Ok(t) => t,
            Err(e) => {
                return Err(e);
            },
        };
        assert(is_sum(grid(summed), grid(embed), grid(total)));
        if group + 1 < CODEBOOKS {
            return self.embed_group(at, total, group + 1);
        }
        let ref_text_ids = match &self.reference {
            Some(n) => copy_frame(&n.text_ids),
            None => Vec::new(),
        };
        let ask = Request::IclPrompt {
            ids: copy_frame(&at.ids),
            ref_text_ids,
            ref_embeds: total,
        };
        Ok(CloneTurn::Ask(ClonePrefill { phase: ClonePhase::Prompting(at), ..self }, ask))
    }

    /// Take up a reply.
    pub fn step(self, reply: Reply) -> (r: Result<CloneTurn, TtsError>)
        requires
            self.wf(),
        ensures
            r matches Ok(turn) ==> self.steps(reply, turn),
            r matches Ok(CloneTurn::Ask(next, _)) ==> next.wf(),
            (r matches Err(e) && e is UnexpectedReply) <==> !self.awaits(reply),
            (r matches Err(e) && e is EmptyPrefill) <==> self.phase is Running && (
            reply matches Reply::Pair(hidden, _) && tensor_dims(hidden).len() > 1 && tensor_dims(
                hidden,
            )[1] == 0),
            self.accepts(reply) ==> r is Ok,
    {
        match (self.phase, reply) {
            (ClonePhase::Encoding, Reply::Tokens(ids)) => {
                let start = ClonePrefill { phase: ClonePhase::Encoding, ..self };
                start.encode(ids)
            },
            (ClonePhase::Caching { config, ids, embedding }, Reply::Done) => {
                let ask = Request::PrefillVoiceClone {
                    ids: copy_frame(&ids),
                    embedding,
                    language: self.language,
                    in_context: self.reference.is_some(),
                };
                let phase = ClonePhase::Running { config, ids };
                Ok(CloneTurn::Ask(ClonePrefill { phase, ..self }, ask))
            },
            (ClonePhase::Running { config, ids }, Reply::Pair(hidden, logits)) => {
                let rest = ClonePrefill { phase: ClonePhase::Encoding, ..self };
                rest.run(config, ids, hidden, logits)
            },
            (ClonePhase::Semantic(at), Reply::Tensor(summed)) => {
                let rest = ClonePrefill { phase: ClonePhase::Encoding, ..self };
                rest.embed_group(at, summed, 1)
            },
            (ClonePhase::Acoustic { at, summed, group }, Reply::Tensor(embed)) => {
                let rest = ClonePrefill { phase: ClonePhase::Encoding, ..self };
                rest.add_group(at, summed, group, embed)
            },
            (ClonePhase::Prompting(at), Reply::Pair(prompt, trailing)) => {
                let d = dims(&prompt);
                if d.len() <= 1 {
                    return Err(TtsError::BadShape);
                }
                let len = d[1];
                if len > 0 {
                    let ask = Request::CausalMask { len, offset: at.offset };
                    let phase = ClonePhase::Masking { at, prompt, len, trailing };
                    Ok(CloneTurn::Ask(ClonePrefill { phase, ..self }, ask))
                } else {
                    let rest = ClonePrefill { phase: ClonePhase::Encoding, ..self };
                    Ok(rest.build_trailing(at))
                }
            },
            (ClonePhase::Masking { at, prompt, len, trailing }, Reply::Tensor(mask)) => {
                let ask = Request::Forward { input: prompt, mask: Some(mask), offset: at.offset };
                let phase = ClonePhase::Layers { at, len, trailing };
                Ok(CloneTurn::Ask(ClonePrefill { phase, ..self }, ask))
            },
            (ClonePhase::Layers { at, len, trailing }, Reply::Tensor(hidden)) => {
                let phase = ClonePhase::Norm { at, len, trailing };
                Ok(CloneTurn::Ask(ClonePrefill { phase, ..self }, Request::Norm(hidden)))
            },
            (ClonePhase::Norm { at, len, trailing }, Reply::Tensor(hidden)) => {
                let offset = match at.offset.checked_add(len) {
                    Some(n) => n,
                    None => {
                        return Err(TtsError::Overflow);
                    },
                };
                match part(&hidden, 1, len - 1, 1) {
                    Ok(last) => {
                        let ask = Request::CodecHead(copy(&last));
                        let phase = ClonePhase::Head {
                            config: at.config,
                            offset,
                            last_hidden: last,
                            trailing,
                        };
                        Ok(CloneTurn::Ask(ClonePrefill { phase, ..self }, ask))
                    },
                    Err(e) => Err(e),
                }
            },
            (ClonePhase::Head { config, offset, last_hidden, trailing }, Reply::Tensor(logits)) => {
                let d = dims(&trailing);
                if d.len() <= 1 {
                    return Err(TtsError::BadShape);
                }
                let len = d[1];
                let phase = ClonePhase::Padding { config, offset, last_hidden, logits, trailing, len };
                Ok(CloneTurn::Ask(ClonePrefill { phase, ..self }, Request::TtsPad))
            },
            (
                ClonePhase::Padding { config, offset, last_hidden, logits, trailing, len },
                Reply::Tensor(pad),
            ) => Ok(
                CloneTurn::Ready(
                    Prefilled {
                        config,
                        offset,
                        last_hidden,
                        logits,
                        trailing,
                        trailing_len: len,
                        pad,
                    },
                ),
            ),
            (ClonePhase::Trailing { at, text }, reply) => match text.step(reply) {
                Ok(TrailingTurn::Ask(text, ask)) => {
                    let phase = ClonePhase::Trailing { at, text };
                    Ok(CloneTurn::Ask(ClonePrefill { phase, ..self }, ask))
                },
                Ok(TrailingTurn::Built { trailing, len, pad }) => Ok(
                    CloneTurn::Ready(
                        Prefilled {
                            config: at.config,
                            offset: at.offset,
                            last_hidden: at.last_hidden,
                            logits: at.logits,
                            trailing,
                            trailing_len: len,
                            pad,
                        },
                    ),
                ),
                Err(e) => Err(e),
            },
            _ => Err(TtsError::UnexpectedReply),
        }
    }
}

} // verus!
