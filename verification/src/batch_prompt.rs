//! The embedded prompts of several texts.
use crate::codes::copy_frame;
use crate::error::TtsError;
use crate::grid::{
    cells_of, countable, join_all, joinable, lemma_shape3, volume, DType, Grid, Location,
};
use crate::ops::{
    cast, concat, concat2, has_room, lemma_total2, lemma_total3, part, shaped, sum,
};
use crate::request::{CodecTokens, Language, Reply, Request};
use crate::tensor::{
    copy, device_location, from_u32, grid, grids, is_converted, is_sum, tensor_dims, tensor_dtype,
    tensor_location, unsqueeze,
};
use candle_core::{Device, Tensor};
use vstd::prelude::*;

verus! {

/// A text of a batch.
pub struct BatchItem {
    pub text: String,
    pub language: Language,
    /// The speaker embedding where a voice is cloned. `None` is Serena.
    pub embedding: Option<Tensor>,
}

/// Embeddings before the first text token that stand for no text.
pub const TEXT_PADS: usize = 5;

/// Codec positions that are fused with them and with the start of the text.
pub const CODEC_POSITIONS: usize = 6;

/// The codec tokens that open a prompt. For a cloned voice the speaker and what
/// comes after follow as embeddings.
pub open spec fn codec_ids(tokens: CodecTokens, language: Language, cloned: bool) -> Seq<u32> {
    let head = seq![tokens.think, tokens.think_bos, language.token(tokens), tokens.think_eos];
    if cloned {
        head
    } else {
        head + seq![tokens.serena, tokens.pad, tokens.bos]
    }
}

/// Numbers on one axis.
pub open spec fn line(values: Seq<u32>, location: Location) -> Grid {
    Grid {
        dtype: DType::U32,
        location,
        dims: seq![values.len() as usize],
        cells: cells_of(values),
    }
}

/// That `r` are the codec embeddings of a cloned voice: those of the tokens, the
/// speaker in the element type of the talker, and those of the last tokens.
pub open spec fn is_clone_codec(
    prefix: Grid,
    embedding: Grid,
    suffix: Grid,
    to: DType,
    width: usize,
    r: Grid,
) -> bool {
    exists|speaker: Grid|
        {
            let parts = seq![prefix, speaker.reshape(seq![1usize, 1, width]), suffix];
            &&& #[trigger] is_converted(embedding, to, speaker)
            &&& volume(seq![1usize, 1, width]) == speaker.cells.len()
            &&& joinable(parts, 1)
            &&& r == join_all(parts, 1)
        }
}

/// Whether the codec embeddings of a cloned voice can be joined on the CPU: they
/// have one width and one element type.
pub open spec fn clones_on_cpu(
    prefix: Grid,
    embedding: Grid,
    suffix: Grid,
    to: DType,
    width: usize,
) -> bool {
    &&& to.is_float()
    &&& prefix.dtype == to && suffix.dtype == to
    &&& prefix.location is Cpu && suffix.location is Cpu
    &&& prefix.dims == seq![1usize, 4, width]
    &&& suffix.dims == seq![1usize, 2, width]
    &&& embedding.at_hand()
    &&& embedding.dtype.is_float()
    &&& embedding.cells.len() == width
    &&& countable(seq![1usize, 7, width])
    &&& countable(seq![1usize, 1, width])
}

/// The codec embeddings of a cloned voice.
pub fn clone_codec(
    prefix: &Tensor,
    embedding: &Tensor,
    suffix: &Tensor,
    to: DType,
    width: usize,
) -> (r: Result<Tensor, TtsError>)
    requires
        to != DType::Other,
    ensures
        r matches Ok(t) ==> is_clone_codec(
            grid(*prefix),
            grid(*embedding),
            grid(*suffix),
            to,
            width,
            grid(t),
        ),
        r matches Err(e) ==> e.is_computing(),
        clones_on_cpu(grid(*prefix), grid(*embedding), grid(*suffix), to, width) ==> r is Ok,
{
    let speaker = match cast(embedding, to) {
        Ok(t) => t,
        Err(e) => {
            return Err(e);
        },
    };
    let single: Vec<usize> = vec![1, 1, width];
    proof {
        assert(single@ =~= seq![1usize, 1, width]);
        lemma_shape3(1, 1, width);
    }
    let position = match shaped(&speaker, &single) {
        Ok(t) => t,
        Err(e) => {
            return Err(e);
        },
    };
    let parts: Vec<Tensor> = vec![copy(prefix), position, copy(suffix)];
    assert(grids(parts@) =~= seq![grid(*prefix), grid(position), grid(*suffix)]);
    assert(is_converted(grid(*embedding), to, grid(speaker)));
    proof {
        if clones_on_cpu(grid(*prefix), grid(*embedding), grid(*suffix), to, width) {
            let gs = grids(parts@);
            lemma_total3(gs[0], gs[1], gs[2], 1);
            assert(gs[0].dims.update(1, 7) =~= seq![1usize, 7, width]);
            assert forall|i: int| 0 <= i < gs.len() implies gs[0].fits(#[trigger] gs[i], 1) by {}
        }
    }
    concat(&parts, 1)
}

/// The codec embeddings of a cloned voice have seven positions.
proof fn lemma_clone_dims(
    prefix: Grid,
    embedding: Grid,
    suffix: Grid,
    to: DType,
    width: usize,
    r: Grid,
)
    requires
        is_clone_codec(prefix, embedding, suffix, to, width, r),
        clones_on_cpu(prefix, embedding, suffix, to, width),
    ensures
        r.dims == seq![1usize, 7, width],
        r.dtype == prefix.dtype,
        r.location == prefix.location,
{
    let speaker = choose|speaker: Grid|
        {
            let parts = seq![prefix, speaker.reshape(seq![1usize, 1, width]), suffix];
            &&& #[trigger] is_converted(embedding, to, speaker)
            &&& volume(seq![1usize, 1, width]) == speaker.cells.len()
            &&& joinable(parts, 1)
            &&& r == join_all(parts, 1)
        };
    let s = speaker.reshape(seq![1usize, 1, width]);
    let parts = seq![prefix, s, suffix];
    assert(parts.drop_last() =~= seq![prefix, s]);
    assert(seq![prefix, s].drop_last() =~= seq![prefix]);
    reveal_with_fuel(join_all, 3);
    assert(r.dims =~= seq![1usize, 7, width]);
}

/// That a prompt opens with the role, then text pads fused with the first codec
/// positions, and that `bos` is the codec position that comes next.
pub open spec fn is_opening(role: Grid, pads: Grid, codec: Grid, hidden: Grid, bos: Grid) -> bool {
    &&& codec.has_range(1, 0, CODEC_POSITIONS)
    &&& codec.has_range(1, CODEC_POSITIONS, 1)
    &&& bos == codec.narrow(1, CODEC_POSITIONS, 1)
    &&& exists|fused: Grid|
        {
            &&& #[trigger] is_sum(pads, codec.narrow(1, 0, CODEC_POSITIONS), fused)
            &&& role.fits(fused, 1)
            &&& hidden == role.join(fused, 1)
        }
}

/// Whether a prompt can be opened on the CPU: role, pads and codec embeddings
/// have one width and one element type.
pub open spec fn opens_on_cpu(role: Grid, pads: Grid, codec: Grid) -> bool {
    &&& role.dtype == pads.dtype && codec.dtype == pads.dtype && pads.dtype.is_float()
    &&& role.location is Cpu && pads.at_hand() && codec.location is Cpu
    &&& role.dims.len() == 3
    &&& role.dims == seq![1usize, role.dims[1], role.dims[2]]
    &&& pads.dims == seq![1usize, 6, role.dims[2]]
    &&& codec.dims == seq![1usize, 7, role.dims[2]]
    &&& role.dims[1] + 6 <= usize::MAX
    &&& countable(seq![1usize, (role.dims[1] + 6) as usize, role.dims[2]])
}

/// The opening of a prompt, and the codec position that comes next.
pub fn opening(role: &Tensor, pads: &Tensor, codec: &Tensor) -> (r: Result<
    (Tensor, Tensor),
    TtsError,
>)
    ensures
        r matches Ok((hidden, bos)) ==> is_opening(
            grid(*role),
            grid(*pads),
            grid(*codec),
            grid(hidden),
            grid(bos),
        ),
        r matches Err(e) ==> e.is_computing() || e is NotFloat,
        opens_on_cpu(grid(*role), grid(*pads), grid(*codec)) ==> r is Ok,
{
    let first = match part(codec, 1, 0, CODEC_POSITIONS) {
        Ok(t) => t,
        Err(e) => {
            return Err(e);
        },
    };
    proof {
        let d = tensor_dims(*codec);
        if opens_on_cpu(grid(*role), grid(*pads), grid(*codec)) {
            assert(tensor_dims(first) =~= seq![1usize, 6, d[2]]);
        }
    }
    let fused = match sum(pads, &first) {
        Ok(t) => t,
        Err(e) => {
            return Err(e);
        },
    };
    let bos = match part(codec, 1, CODEC_POSITIONS, 1) {
        Ok(t) => t,
        Err(e) => {
            return Err(e);
        },
    };
    proof {
        assert(is_sum(grid(*pads), grid(first), grid(fused)));
        if opens_on_cpu(grid(*role), grid(*pads), grid(*codec)) {
            lemma_total2(grid(*role), grid(fused), 1);
            let d = tensor_dims(*role);
            assert(d.update(1, (d[1] + 6) as usize) =~= seq![1usize, (d[1] + 6) as usize, d[2]]);
        }
    }
    match concat2(role, &fused, 1) {
        Ok(hidden) => Ok((hidden, bos)),
        Err(e) => Err(e),
    }
}

/// That `whole` is the opening of a prompt, followed by the first text token
/// where there is one.
pub open spec fn is_prompt(hidden: Tensor, first: Option<Tensor>, whole: Tensor) -> bool {
    match first {
        Some(t) => grid(hidden).fits(grid(t), 1) && grid(whole) == grid(hidden).join(grid(t), 1),
        None => whole == hidden,
    }
}

/// What all prompts share.
pub struct Shared {
    /// The role that speaks.
    pub role: Tensor,
    /// Text pads and the start of a text.
    pub pads: Tensor,
    /// The codec embeddings behind a cloned speaker.
    pub suffix: Option<Tensor>,
}

/// What is waited for.
pub enum PromptPhase {
    /// The role.
    Role,
    /// The text pads.
    Pads { role: Tensor },
    /// The codec embeddings behind a cloned speaker.
    Suffix { role: Tensor, pads: Tensor },
    /// The tokens of the next text.
    Encoding(Shared),
    /// The codec embeddings that open its prompt.
    Codec { shared: Shared, ids: Vec<u32> },
    /// Its first text token, fused.
    First { shared: Shared, ids: Vec<u32>, hidden: Tensor },
}

/// Embeds the prompts of several texts.
pub struct BatchPrefill {
    pub tokens: CodecTokens,
    pub compute_dtype: DType,
    /// Width of an embedding.
    pub hidden_size: usize,
    pub device: Device,
    pub items: Vec<BatchItem>,
    /// The prompts that are embedded.
    pub embeds: Vec<Tensor>,
    /// The tokens of their texts.
    pub ids: Vec<Vec<u32>>,
    pub phase: PromptPhase,
}

/// What is wanted next.
pub enum PromptTurn {
    /// A reply of the model.
    Ask(BatchPrefill, Request),
    /// Nothing: these are the prompts, and the tokens of their texts.
    Built { embeds: Vec<Tensor>, ids: Vec<Vec<u32>> },
}

/// Whether a voice is cloned in one of the texts.
pub open spec fn clones(items: Seq<BatchItem>) -> bool {
    exists|i: int| 0 <= i < items.len() && (#[trigger] items[i]).embedding is Some
}

/// Whether a voice is cloned in one of the texts.
pub fn any_clone(items: &Vec<BatchItem>) -> (r: bool)
    ensures
        r == clones(items@),
{
    let mut i: usize = 0;
    while i < items.len()
        invariant
            i <= items@.len(),
            forall|j: int| 0 <= j < i ==> (#[trigger] items@[j]).embedding is None,
        decreases items@.len() - i,
    {
        if items[i].embedding.is_some() {
            assert(items@[i as int].embedding is Some);
            return true;
        }
        i = i + 1;
    }
    false
}

impl BatchPrefill {
    /// There is a text to go on with, and the embeddings behind a cloned speaker
    /// are there where one is cloned.
    pub open spec fn wf(self) -> bool {
        &&& self.compute_dtype != DType::Other
        &&& self.embeds@.len() == self.ids@.len()
        &&& self.embeds@.len() < self.items@.len()
        &&& match self.phase {
            PromptPhase::Role => self.embeds@.len() == 0,
            PromptPhase::Pads { .. } => self.embeds@.len() == 0,
            PromptPhase::Suffix { .. } => self.embeds@.len() == 0,
            PromptPhase::Encoding(s) => clones(self.items@) ==> s.suffix is Some,
            PromptPhase::Codec { shared, .. } => clones(self.items@) ==> shared.suffix is Some,
            PromptPhase::First { shared, .. } => clones(self.items@) ==> shared.suffix is Some,
        }
    }

    /// Whether this is a reply to what was asked.
    pub open spec fn awaits(self, reply: Reply) -> bool {
        match self.phase {
            PromptPhase::Encoding(_) => reply is Tokens,
            PromptPhase::First { .. } => reply is Maybe,
            _ => reply is Tensor,
        }
    }

    /// Whether a reply can be taken up on the CPU.
    pub open spec fn accepts(self, reply: Reply) -> bool {
        &&& self.awaits(reply)
        &&& match (self.phase, reply) {
            (PromptPhase::Pads { .. }, _) => clones(self.items@) ==> device_location(
                self.device,
            ) is Cpu,
            (PromptPhase::Encoding(_), _) => device_location(self.device) is Cpu,
            (PromptPhase::Codec { shared, .. }, Reply::Tensor(embed)) => {
                let width = self.hidden_size;
                let prefix = grid(embed).unsqueeze(0);
                let codec = match self.item().embedding {
                    Some(_) => Grid { dims: seq![1usize, 7, width], ..prefix },
                    None => prefix,
                };
                &&& self.item().embedding matches Some(e) ==> clones_on_cpu(
                    prefix,
                    grid(e),
                    grid(shared.suffix->0),
                    self.compute_dtype,
                    width,
                )
                &&& opens_on_cpu(grid(shared.role), grid(shared.pads), codec)
            },
            (PromptPhase::First { hidden, .. }, Reply::Maybe(Some(first))) => {
                &&& grid(hidden).fits(grid(first), 1)
                &&& has_room(seq![grid(hidden), grid(first)], 1)
                &&& tensor_location(hidden) is Cpu
                &&& tensor_dtype(hidden) != DType::Other
            },
            _ => true,
        }
    }

    /// The text whose prompt is embedded next.
    pub open spec fn item(self) -> BatchItem {
        self.items@[self.embeds@.len() as int]
    }

    /// That the tokens of the next text are asked for.
    pub open spec fn encodes(self, shared: Shared, turn: PromptTurn) -> bool {
        &&& turn matches PromptTurn::Ask(next, Request::Encode(text))
        &&& next == (BatchPrefill { phase: PromptPhase::Encoding(shared), ..self })
        &&& text@ == self.item().text@
    }

    /// That the codec embeddings of the next text are asked for.
    pub open spec fn takes(self, shared: Shared, ids: Vec<u32>, turn: PromptTurn) -> bool {
        &&& turn matches PromptTurn::Ask(next, Request::EmbedCodec(t))
        &&& next == (BatchPrefill { phase: PromptPhase::Codec { shared, ids }, ..self })
        &&& grid(t) == line(
            codec_ids(self.tokens, self.item().language, self.item().embedding is Some),
            device_location(self.device),
        )
    }

    /// That `codec` are the codec embeddings of the next text, given those of its
    /// tokens.
    pub open spec fn is_codec(self, shared: Shared, embed: Tensor, codec: Grid) -> bool {
        match self.item().embedding {
            Some(e) => {
                &&& shared.suffix matches Some(suffix)
                &&& is_clone_codec(
                    grid(embed).unsqueeze(0),
                    grid(e),
                    grid(suffix),
                    self.compute_dtype,
                    self.hidden_size,
                    codec,
                )
            },
            None => codec == grid(embed).unsqueeze(0),
        }
    }

    /// What the codec embeddings of the next text lead to: its prompt opens, and
    /// its first text token is asked for.
    pub open spec fn opens(self, shared: Shared, ids: Vec<u32>, embed: Tensor, turn: PromptTurn) -> bool {
        exists|codec: Grid|
            {
                &&& #[trigger] self.is_codec(shared, embed, codec)
                &&& turn matches PromptTurn::Ask(next, Request::FirstText { ids: ids1, bos })
                &&& next == (BatchPrefill { phase: next.phase, ..self })
                &&& next.phase matches PromptPhase::First { shared: s1, ids: i1, hidden }
                &&& s1 == shared
                &&& i1 == ids
                &&& ids1@ == ids@
                &&& is_opening(grid(shared.role), grid(shared.pads), codec, grid(hidden), grid(bos))
            }
    }

    /// What the end of a prompt leads to: the next one, or all are built.
    pub open spec fn ends(
        self,
        shared: Shared,
        ids: Vec<u32>,
        hidden: Tensor,
        first: Option<Tensor>,
        turn: PromptTurn,
    ) -> bool {
        exists|whole: Tensor|
            {
                &&& #[trigger] is_prompt(hidden, first, whole)
                &&& if self.embeds@.len() + 1 < self.items@.len() {
                    &&& turn matches PromptTurn::Ask(next, Request::Encode(text))
                    &&& next == (BatchPrefill {
                        embeds: next.embeds,
                        ids: next.ids,
                        phase: PromptPhase::Encoding(shared),
                        ..self
                    })
                    &&& next.embeds@ == self.embeds@.push(whole)
                    &&& next.ids@ == self.ids@.push(ids)
                    &&& text@ == self.items@[self.embeds@.len() as int + 1].text@
                } else {
                    &&& turn matches PromptTurn::Built { embeds, ids: all }
                    &&& embeds@ == self.embeds@.push(whole)
                    &&& all@ == self.ids@.push(ids)
                }
            }
    }

    /// What a reply leads to.
    pub open spec fn steps(self, reply: Reply, turn: PromptTurn) -> bool {
        match (self.phase, reply) {
            (PromptPhase::Role, Reply::Tensor(role)) => {
                turn == PromptTurn::Ask(
                    BatchPrefill { phase: PromptPhase::Pads { role }, ..self },
                    Request::TtsPadBos(TEXT_PADS),
                )
            },
            (PromptPhase::Pads { role }, Reply::Tensor(pads)) => {
                if clones(self.items@) {
                    &&& turn matches PromptTurn::Ask(next, Request::EmbedCodec(t))
                    &&& next == (BatchPrefill { phase: PromptPhase::Suffix { role, pads }, ..self })
                    &&& grid(t) == line(
                        seq![self.tokens.pad, self.tokens.bos],
                        device_location(self.device),
                    )
                } else {
                    self.encodes(Shared { role, pads, suffix: None }, turn)
                }
            },
            (PromptPhase::Suffix { role, pads }, Reply::Tensor(embed)) => {
                exists|suffix: Tensor|
                    {
                        &&& grid(suffix) == grid(embed).unsqueeze(0)
                        &&& #[trigger] self.encodes(
                            Shared { role, pads, suffix: Some(suffix) },
                            turn,
                        )
                    }
            },
            (PromptPhase::Encoding(shared), Reply::Tokens(ids)) => {
                self.takes(shared, ids, turn)
            },
            (PromptPhase::Codec { shared, ids }, Reply::Tensor(embed)) => {
                self.opens(shared, ids, embed, turn)
            },
            (PromptPhase::First { shared, ids, hidden }, Reply::Maybe(first)) => {
                self.ends(shared, ids, hidden, first, turn)
            },
            _ => false,
        }
    }

    /// Start with these texts.
    pub fn start(
        tokens: CodecTokens,
        compute_dtype: DType,
        hidden_size: usize,
        device: Device,
        items: Vec<BatchItem>,
    ) -> (r: (BatchPrefill, Request))
        requires
            items@.len() > 0,
            compute_dtype != DType::Other,
        ensures
            r.0.wf(),
            r.0 == (BatchPrefill {
                tokens,
                compute_dtype,
                hidden_size,
                device,
                items,
                embeds: r.0.embeds,
                ids: r.0.ids,
                phase: PromptPhase::Role,
            }),
            r.1 == Request::RolePrefix,
    {
        (
            BatchPrefill {
                tokens,
                compute_dtype,
                hidden_size,
                device,
                items,
                embeds: Vec::new(),
                ids: Vec::new(),
                phase: PromptPhase::Role,
            },
            Request::RolePrefix,
        )
    }

    /// Ask for the tokens of the next text.
    fn encode(self, shared: Shared) -> (r: PromptTurn)
        requires
            self.embeds@.len() < self.items@.len(),
        ensures
            self.encodes(shared, r),
    {
        let text = self.items[self.embeds.len()].text.as_str().to_owned();
        let phase = PromptPhase::Encoding(shared);
        PromptTurn::Ask(BatchPrefill { phase, ..self }, Request::Encode(text))
    }

    /// The codec embeddings of the next text.
    fn codec(&self, shared: &Shared, embed: &Tensor) -> (r: Result<Tensor, TtsError>)
        requires
            self.embeds@.len() < self.items@.len(),
            self.compute_dtype != DType::Other,
            clones(self.items@) ==> shared.suffix is Some,
        ensures
            r matches Ok(t) ==> self.is_codec(*shared, *embed, grid(t)),
            r matches Err(e) ==> e.is_computing(),
            self.item().embedding is None ==> r is Ok,
            (self.item().embedding matches Some(e) && clones_on_cpu(
                grid(*embed).unsqueeze(0),
                grid(e),
                grid(shared.suffix->0),
                self.compute_dtype,
                self.hidden_size,
            )) ==> r is Ok,
    {
        let prefix = match unsqueeze(embed, 0) {
            Ok(t) => t,
            Err(e) => {
                return Err(TtsError::Tensor(e));
            },
        };
        let item = &self.items[self.embeds.len()];
        match (&item.embedding, &shared.suffix) {
            (Some(e), Some(suffix)) => {
                clone_codec(&prefix, e, suffix, self.compute_dtype, self.hidden_size)
            },
            (None, _) => Ok(prefix),
            (Some(_), None) => {
                proof {
                    assert(self.items@[self.embeds@.len() as int].embedding is Some);
                }
                Err(TtsError::Overflow)
            },
        }
    }

    /// Take up the tokens of the next text.
    fn take_ids(self, shared: Shared, ids: Vec<u32>) -> (r: Result<PromptTurn, TtsError>)
        requires
            self.embeds@.len() < self.items@.len(),
        ensures
            r matches Ok(turn) ==> self.takes(shared, ids, turn),
            r matches Err(e) ==> e.is_computing(),
            device_location(self.device) is Cpu ==> r is Ok,
    {
        let item = &self.items[self.embeds.len()];
        let language = item.language.token_id(&self.tokens);
        let codec: Vec<u32> = if item.embedding.is_some() {
            vec![self.tokens.think, self.tokens.think_bos, language, self.tokens.think_eos]
        } else {
            vec![
                self.tokens.think,
                self.tokens.think_bos,
                language,
                self.tokens.think_eos,
                self.tokens.serena,
                self.tokens.pad,
                self.tokens.bos,
            ]
        };
        assert(codec@ =~= codec_ids(
            self.tokens,
            self.item().language,
            self.item().embedding is Some,
        ));
        match from_u32(&codec, &self.device) {
            Ok(t) => {
                let phase = PromptPhase::Codec { shared, ids };
                Ok(PromptTurn::Ask(BatchPrefill { phase, ..self }, Request::EmbedCodec(t)))
            },
            Err(e) => Err(TtsError::Tensor(e)),
        }
    }

    /// Take up the first text token.
    fn finish(self, shared: Shared, ids: Vec<u32>, hidden: Tensor, first: Option<Tensor>) -> (r: Result<
        PromptTurn,
        TtsError,
    >)
        requires
            self.compute_dtype != DType::Other,
            self.embeds@.len() == self.ids@.len(),
            self.embeds@.len() < self.items@.len(),
            clones(self.items@) ==> shared.suffix is Some,
        ensures
            r matches Ok(turn) ==> self.ends(shared, ids, hidden, first, turn),
            r matches Ok(PromptTurn::Ask(next, _)) ==> next.wf() && next.items == self.items,
            r matches Ok(PromptTurn::Built { embeds, ids: all }) ==> embeds@.len() == self.items@.len()
                && all@.len() == self.items@.len(),
            r matches Err(e) ==> e.is_computing(),
            first is None ==> r is Ok,
            (first matches Some(t) && grid(hidden).fits(grid(t), 1) && has_room(
                seq![grid(hidden), grid(t)],
                1,
            ) && tensor_location(hidden) is Cpu && tensor_dtype(hidden) != DType::Other) ==> r is Ok,
    {
        let whole = match &first {
            Some(t) => match concat2(&hidden, t, 1) {
                Ok(w) => w,
                Err(e) => {
                    return Err(e);
                },
            },
            None => hidden,
        };
        assert(is_prompt(hidden, first, whole));
        let mut embeds = self.embeds;
        let mut all = self.ids;
        embeds.push(whole);
        all.push(ids);
        if embeds.len() < self.items.len() {
            let text = self.items[embeds.len()].text.as_str().to_owned();
            let phase = PromptPhase::Encoding(shared);
            let next = BatchPrefill { embeds, ids: all, phase, ..self };
            Ok(PromptTurn::Ask(next, Request::Encode(text)))
        } else {
            Ok(PromptTurn::Built { embeds, ids: all })
        }
    }

    /// Take up a reply.
    pub fn step(self, reply: Reply) -> (r: Result<PromptTurn, TtsError>)
        requires
            self.wf(),
        ensures
            r matches Ok(turn) ==> self.steps(reply, turn),
            r matches Ok(PromptTurn::Ask(next, _)) ==> next.wf() && next.items == self.items,
            r matches Ok(PromptTurn::Built { embeds, ids }) ==> embeds@.len() == self.items@.len()
                && ids@.len() == self.items@.len(),
            (r matches Err(e) && e is UnexpectedReply) <==> !self.awaits(reply),
            r matches Err(e) ==> e is UnexpectedReply || e.is_computing() || e is NotFloat,
            self.accepts(reply) ==> r is Ok,
    {
        match (self.phase, reply) {
            (PromptPhase::Role, Reply::Tensor(role)) => {
                let phase = PromptPhase::Pads { role };
                Ok(PromptTurn::Ask(BatchPrefill { phase, ..self }, Request::TtsPadBos(TEXT_PADS)))
            },
            (PromptPhase::Pads { role }, Reply::Tensor(pads)) => {
                if any_clone(&self.items) {
                    let ids: Vec<u32> = vec![self.tokens.pad, self.tokens.bos];
                    assert(ids@ =~= seq![self.tokens.pad, self.tokens.bos]);
                    match from_u32(&ids, &self.device) {
                        Ok(t) => {
                            let phase = PromptPhase::Suffix { role, pads };
                            Ok(
                                PromptTurn::Ask(
                                    BatchPrefill { phase, ..self },
                                    Request::EmbedCodec(t),
                                ),
                            )
                        },
                        Err(e) => Err(TtsError::Tensor(e)),
                    }
                } else {
                    let rest = BatchPrefill { phase: PromptPhase::Role, ..self };
                    Ok(rest.encode(Shared { role, pads, suffix: None }))
                }
            },
            (PromptPhase::Suffix { role, pads }, Reply::Tensor(embed)) => {
                match unsqueeze(&embed, 0) {
                    Ok(suffix) => {
                        let rest = BatchPrefill { phase: PromptPhase::Role, ..self };
                        let shared = Shared { role, pads, suffix: Some(suffix) };
                        let turn = rest.encode(shared);
                        assert(self.encodes(shared, turn));
                        Ok(turn)
                    },
                    Err(e) => Err(TtsError::Tensor(e)),
                }
            },
            (PromptPhase::Encoding(shared), Reply::Tokens(ids)) => {
                let rest = BatchPrefill { phase: PromptPhase::Role, ..self };
                rest.take_ids(shared, ids)
            },
            (PromptPhase::Codec { shared, ids }, Reply::Tensor(embed)) => {
                let rest = BatchPrefill { phase: PromptPhase::Role, ..self };
                let codec = match rest.codec(&shared, &embed) {
                    Ok(t) => t,
                    Err(e) => {
                        return Err(e);
                    },
                };
                proof {
                    assert(self.is_codec(shared, embed, grid(codec)));
                    if self.accepts(Reply::Tensor(embed)) && self.item().embedding is Some {
                        lemma_clone_dims(
                            grid(embed).unsqueeze(0),
                            grid(self.item().embedding->0),
                            grid(shared.suffix->0),
                            self.compute_dtype,
                            self.hidden_size,
                            grid(codec),
                        );
                    }
                }
                match opening(&shared.role, &shared.pads, &codec) {
                    Ok((hidden, bos)) => {
                        let ask = Request::FirstText { ids: copy_frame(&ids), bos };
                        let phase = PromptPhase::First { shared, ids, hidden };
                        Ok(PromptTurn::Ask(BatchPrefill { phase, ..rest }, ask))
                    },
                    Err(e) => Err(e),
                }
            },
            (PromptPhase::First { shared, ids, hidden }, Reply::Maybe(first)) => {
                let rest = BatchPrefill { phase: PromptPhase::Role, ..self };
                rest.finish(shared, ids, hidden, first)
            },
            _ => Err(TtsError::UnexpectedReply),
        }
    }
}

} // verus!
