//! From embedded prompts of several texts to the state in which their frames can
//! be generated side by side.
use crate::error::TtsError;
use crate::grid::{axis_total, countable, join_all, joinable, Grid, Location};
use crate::ops::{concat, part};
use crate::padding::{
    build_batched_causal_mask, fits_padding, is_padded, lemma_longest, longest, longest_of, mask_grid, pad_left,
    positions, token_positions, tokens_at_end, zero_positions,
};
use crate::request::{Reply, Request};
use crate::tensor::{
    copy, device_location, dims, grid, grids, tensor_dims, tensor_dtype, tensor_location,
};
use crate::trailing::{TrailingText, TrailingTurn};
use candle_core::{Device, Tensor};
use vstd::prelude::*;

verus! {

/// Positions that the caches of a batch hold beyond the prompt and the frames.
pub const BATCH_CACHE_MARGIN: usize = 16;

/// That these are the prompts filled up to one length, and which of their
/// positions hold tokens.
pub open spec fn are_padded(
    embeds: Seq<Tensor>,
    len: usize,
    width: usize,
    location: Location,
    padded: Seq<Tensor>,
    masks: Seq<Vec<bool>>,
) -> bool {
    &&& padded.len() == embeds.len()
    &&& masks.len() == embeds.len()
    &&& forall|i: int|
        0 <= i < embeds.len() ==> is_padded(embeds[i], len, width, location, #[trigger] padded[i])
    &&& forall|i: int|
        0 <= i < embeds.len() ==> (#[trigger] masks[i])@ == tokens_at_end(
            positions(grid(embeds[i])),
            len as nat,
        )
}

/// Fill prompts up to one length.
pub fn pad_all(embeds: &Vec<Tensor>, len: usize, width: usize, device: &Device) -> (r: Result<
    (Vec<Tensor>, Vec<Vec<bool>>),
    TtsError,
>)
    requires
        len >= longest_of(embeds@),
    ensures
        r matches Ok((padded, masks)) ==> are_padded(
            embeds@,
            len,
            width,
            device_location(*device),
            padded@,
            masks@,
        ),
        r matches Err(e) ==> e.is_computing() || e is BadShape,
        (forall|i: int|
            0 <= i < embeds@.len() ==> fits_padding(
                grid(#[trigger] embeds@[i]),
                len,
                width,
                device_location(*device),
            )) ==> r is Ok,
{
    let mut padded: Vec<Tensor> = Vec::new();
    let mut masks: Vec<Vec<bool>> = Vec::new();
    let mut i: usize = 0;
    while i < embeds.len()
        invariant
            i <= embeds@.len(),
            len >= longest_of(embeds@),
            are_padded(
                embeds@.take(i as int),
                len,
                width,
                device_location(*device),
                padded@,
                masks@,
            ),
        decreases embeds@.len() - i,
    {
        let d = dims(&embeds[i]);
        if d.len() <= 1 {
            return Err(TtsError::BadShape);
        }
        proof {
            lemma_longest(embeds@, i as int);
        }
        match pad_left(&embeds[i], len, width, device) {
            Ok(t) => {
                padded.push(t);
            },
            Err(e) => {
                return Err(e);
            },
        }
        masks.push(token_positions(d[1], len));
        proof {
            let before = embeds@.take(i as int);
            let now = embeds@.take(i + 1);
            assert forall|k: int| 0 <= k < now.len() implies is_padded(
                now[k],
                len,
                width,
                device_location(*device),
                #[trigger] padded@[k],
            ) by {
                if k < i {
                    assert(now[k] == before[k]);
                }
            }
            assert forall|k: int| 0 <= k < now.len() implies (#[trigger] masks@[k])@
                == tokens_at_end(positions(grid(now[k])), len as nat) by {
                if k < i {
                    assert(now[k] == before[k]);
                }
            }
        }
        i = i + 1;
    }
    assert(embeds@.take(embeds@.len() as int) =~= embeds@);
    Ok((padded, masks))
}

/// A prompt that was filled up has so many positions.
proof fn lemma_padded_shape(embed: Tensor, len: usize, width: usize, location: Location, r: Tensor)
    requires
        is_padded(embed, len, width, location, r),
        fits_padding(grid(embed), len, width, location),
    ensures
        tensor_dims(r) == seq![1usize, len, width],
        tensor_dtype(r) == tensor_dtype(embed),
        tensor_location(r) is Cpu,
{
    let n = tensor_dims(embed)[1];
    if n < len {
        let z = zero_positions(grid(embed), (len - n) as usize, width, location);
        assert(z.join(grid(embed), 1).dims =~= seq![1usize, len, width]);
    }
}

/// Where each part adds one, there are as many as parts.
proof fn lemma_total_ones(parts: Seq<Grid>)
    requires
        forall|i: int|
            0 <= i < parts.len() ==> (#[trigger] parts[i]).dims.len() > 0 && parts[i].dims[0] == 1,
    ensures
        axis_total(parts, 0) == parts.len(),
    decreases parts.len(),
{
    if parts.len() > 0 {
        lemma_total_ones(parts.drop_last());
        assert(parts[parts.len() - 1].dims[0] == 1);
    }
}

/// Whether prompts can be handed to the talker on the CPU: they have one width
/// and one element type, and there is room for them side by side.
pub open spec fn starts_on_cpu(
    embeds: Seq<Tensor>,
    max_new_tokens: usize,
    growing: bool,
    location: Location,
) -> bool {
    let len = longest_of(embeds) as usize;
    let width = tensor_dims(embeds[0])[2];
    let n = embeds.len() as usize;
    &&& len > 0
    &&& forall|i: int|
        0 <= i < embeds.len() ==> fits_padding(grid(#[trigger] embeds[i]), len, width, location)
            && tensor_dtype(embeds[i]) == tensor_dtype(embeds[0])
    &&& countable(seq![n, len, width])
    &&& countable(seq![n, len, len])
    &&& growing || max_new_tokens + len + BATCH_CACHE_MARGIN <= usize::MAX
}

/// What the layers gave for the last position of one sequence.
pub open spec fn last_of(hidden: Grid, i: usize, len: usize) -> Grid {
    hidden.narrow(0, i, 1).narrow(1, (len - 1) as usize, 1)
}

/// What the layers gave for the last position of one sequence.
fn last_row(hidden: &Tensor, i: usize, len: usize) -> (r: Result<Tensor, TtsError>)
    requires
        len > 0,
    ensures
        r matches Ok(t) ==> grid(t) == last_of(grid(*hidden), i, len),
        r matches Err(e) ==> e.is_computing(),
        r is Ok <==> grid(*hidden).has_range(0, i, 1) && grid(*hidden).has_range(
            1,
            (len - 1) as usize,
            1,
        ),
{
    match part(hidden, 0, i, 1) {
        Ok(row) => part(&row, 1, len - 1, 1),
        Err(e) => Err(e),
    }
}

/// What generation for several texts starts from.
pub struct BatchReady {
    /// Positions of the longest prompt.
    pub offset: usize,
    /// Width of an embedding.
    pub width: usize,
    /// What the talker gave for the last position of each prompt.
    pub last_hiddens: Vec<Tensor>,
    /// The logits of the first token of each sequence.
    pub logits: Vec<Tensor>,
    pub pad: Tensor,
    pub trailings: Vec<Tensor>,
    pub lens: Vec<usize>,
}

/// What is waited for.
pub enum BatchPhase {
    /// Empty caches.
    Caching { input: Tensor, mask: Tensor },
    /// What the layers make of the prompts.
    Layers,
    /// The same, normalized.
    Norm,
    /// The logits of the last position of each sequence.
    Heads { hidden: Tensor, last_hiddens: Vec<Tensor>, logits: Vec<Tensor> },
    /// What stands for no text.
    Padding { last_hiddens: Vec<Tensor>, logits: Vec<Tensor> },
    /// The trailing text of each sequence.
    Trailing {
        last_hiddens: Vec<Tensor>,
        logits: Vec<Tensor>,
        pad: Tensor,
        trailings: Vec<Tensor>,
        lens: Vec<usize>,
        text: TrailingText,
    },
}

/// Runs the talker on embedded prompts.
pub struct BatchStart {
    /// The tokens of each text.
    pub ids: Vec<Vec<u32>>,
    /// Positions of the longest prompt.
    pub len: usize,
    pub width: usize,
    pub phase: BatchPhase,
}

/// What is wanted next.
pub enum BatchStartTurn {
    /// A reply of the model.
    Ask(BatchStart, Request),
    /// Nothing: generation can start.
    Ready(BatchReady),
}

impl BatchStart {
    /// There are sequences, the longest prompt is not empty, and what was
    /// gathered goes sequence by sequence.
    pub open spec fn wf(self) -> bool {
        let n = self.ids@.len();
        &&& n > 0
        &&& self.len > 0
        &&& match self.phase {
            BatchPhase::Heads { last_hiddens, logits, .. } => {
                &&& last_hiddens@.len() == logits@.len() + 1
                &&& logits@.len() < n
            },
            BatchPhase::Padding { last_hiddens, logits } => {
                &&& last_hiddens@.len() == n
                &&& logits@.len() == n
            },
            BatchPhase::Trailing { last_hiddens, logits, trailings, lens, .. } => {
                &&& last_hiddens@.len() == n
                &&& logits@.len() == n
                &&& trailings@.len() == lens@.len()
                &&& trailings@.len() < n
            },
            _ => true,
        }
    }

    /// Whether this is a reply to what was asked.
    pub open spec fn awaits(self, reply: Reply) -> bool {
        match self.phase {
            BatchPhase::Caching { .. } => reply is Done,
            _ => reply is Tensor,
        }
    }

    /// Whether a reply can be taken up on the CPU.
    pub open spec fn accepts(self, reply: Reply) -> bool {
        &&& self.awaits(reply)
        &&& match (self.phase, reply) {
            (BatchPhase::Norm, Reply::Tensor(hidden)) => {
                &&& tensor_dims(hidden).len() > 1
                &&& tensor_dims(hidden)[0] > 0
                &&& tensor_dims(hidden)[1] >= self.len
            },
            (BatchPhase::Heads { hidden, logits, .. }, _) => {
                &&& tensor_dims(hidden).len() > 1
                &&& tensor_dims(hidden)[0] >= self.ids@.len()
                &&& tensor_dims(hidden)[1] >= self.len
            },
            (BatchPhase::Trailing { text, .. }, _) => text.accepts(reply),
            _ => true,
        }
    }

    /// That the prompts are handed to the talker like this: filled up to one
    /// length, one below the other, behind a mask.
    pub open spec fn starts(
        embeds: Seq<Tensor>,
        ids: Vec<Vec<u32>>,
        max_new_tokens: usize,
        growing: bool,
        device: Device,
        r: (BatchStart, Request),
    ) -> bool {
        let location = device_location(device);
        &&& r.0.ids == ids
        &&& r.0.len == longest_of(embeds)
        &&& tensor_dims(embeds[0]).len() > 2
        &&& r.0.width == tensor_dims(embeds[0])[2]
        &&& r.0.phase matches BatchPhase::Caching { input, mask }
        &&& exists|padded: Seq<Tensor>, masks: Seq<Vec<bool>>|
            {
                &&& #[trigger] are_padded(embeds, r.0.len, r.0.width, location, padded, masks)
                &&& joinable(grids(padded), 0)
                &&& grid(input) == join_all(grids(padded), 0)
                &&& grid(mask) == mask_grid(masks, r.0.len, location)
            }
        &&& r.1 == if growing {
            Request::NewGrowingCaches
        } else {
            Request::NewBatchCaches(
                ids@.len() as usize,
                (max_new_tokens + r.0.len + BATCH_CACHE_MARGIN) as usize,
            )
        }
    }

    /// That the logits of sequence `i` are asked for.
    pub open spec fn heads(
        self,
        hidden: Tensor,
        before: Seq<Tensor>,
        logits: Seq<Tensor>,
        turn: BatchStartTurn,
    ) -> bool {
        let i = before.len() as usize;
        &&& turn matches BatchStartTurn::Ask(next, Request::CodecHead(last))
        &&& next == (BatchStart { phase: next.phase, ..self })
        &&& next.phase matches BatchPhase::Heads { hidden: h, last_hiddens, logits: l }
        &&& h == hidden
        &&& last_hiddens@ == before.push(last)
        &&& l@ == logits
        &&& grid(hidden).has_range(0, i, 1)
        &&& grid(hidden).has_range(1, (self.len - 1) as usize, 1)
        &&& grid(last) == last_of(grid(hidden), i, self.len)
    }

    /// That the trailing text of the next sequence is built.
    pub open spec fn trails(
        self,
        last_hiddens: Vec<Tensor>,
        logits: Vec<Tensor>,
        pad: Tensor,
        trailings: Seq<Tensor>,
        lens: Seq<usize>,
        turn: BatchStartTurn,
    ) -> bool {
        &&& turn matches BatchStartTurn::Ask(next, ask)
        &&& next == (BatchStart { phase: next.phase, ..self })
        &&& next.phase matches BatchPhase::Trailing {
            last_hiddens: h,
            logits: l,
            pad: p,
            trailings: ts,
            lens: ls,
            text,
        }
        &&& h == last_hiddens
        &&& l == logits
        &&& p == pad
        &&& ts@ == trailings
        &&& ls@ == lens
        &&& TrailingText::starts(self.ids@[trailings.len() as int]@, (text, ask))
    }

    /// What the trailing text of a sequence leads to.
    pub open spec fn trailed(
        self,
        last_hiddens: Vec<Tensor>,
        logits: Vec<Tensor>,
        pad: Tensor,
        trailings: Seq<Tensor>,
        lens: Seq<usize>,
        turn: BatchStartTurn,
    ) -> bool {
        if trailings.len() < self.ids@.len() {
            self.trails(last_hiddens, logits, pad, trailings, lens, turn)
        } else {
            &&& turn matches BatchStartTurn::Ready(b)
            &&& b.offset == self.len
            &&& b.width == self.width
            &&& b.last_hiddens == last_hiddens
            &&& b.logits == logits
            &&& b.pad == pad
            &&& b.trailings@ == trailings
            &&& b.lens@ == lens
        }
    }

    /// What a reply leads to.
    pub open spec fn steps(self, reply: Reply, turn: BatchStartTurn) -> bool {
        match (self.phase, reply) {
            (BatchPhase::Caching { input, mask }, Reply::Done) => {
                turn == BatchStartTurn::Ask(
                    BatchStart { phase: BatchPhase::Layers, ..self },
                    Request::Forward { input, mask: Some(mask), offset: 0 },
                )
            },
            (BatchPhase::Layers, Reply::Tensor(hidden)) => {
                turn == BatchStartTurn::Ask(
                    BatchStart { phase: BatchPhase::Norm, ..self },
                    Request::Norm(hidden),
                )
            },
            (BatchPhase::Norm, Reply::Tensor(hidden)) => {
                self.heads(hidden, Seq::empty(), Seq::empty(), turn)
            },
            (BatchPhase::Heads { hidden, last_hiddens, logits }, Reply::Tensor(l)) => {
                if logits@.len() + 1 < self.ids@.len() {
                    self.heads(hidden, last_hiddens@, logits@.push(l), turn)
                } else {
                    &&& turn matches BatchStartTurn::Ask(next, ask)
                    &&& ask == Request::TtsPad
                    &&& next == (BatchStart { phase: next.phase, ..self })
                    &&& next.phase matches BatchPhase::Padding { last_hiddens: h, logits: ls }
                    &&& h == last_hiddens
                    &&& ls@ == logits@.push(l)
                }
            },
            (BatchPhase::Padding { last_hiddens, logits }, Reply::Tensor(pad)) => {
                self.trails(last_hiddens, logits, pad, Seq::empty(), Seq::empty(), turn)
            },
            (
                BatchPhase::Trailing { last_hiddens, logits, pad, trailings, lens, text },
                _,
            ) => {
                exists|t: TrailingTurn| #[trigger]
                    text.steps(reply, t) && match t {
                        TrailingTurn::Ask(text, ask) => turn == BatchStartTurn::Ask(
                            BatchStart {
                                phase: BatchPhase::Trailing {
                                    last_hiddens,
                                    logits,
                                    pad,
                                    trailings,
                                    lens,
                                    text,
                                },
                                ..self
                            },
                            ask,
                        ),
                        TrailingTurn::Built { trailing, len, pad: _ } => self.trailed(
                            last_hiddens,
                            logits,
                            pad,
                            trailings@.push(trailing),
                            lens@.push(len),
                            turn,
                        ),
                    }
            },
            _ => false,
        }
    }

    /// Start with embedded prompts and the tokens of their texts.
    pub fn start(
        embeds: &Vec<Tensor>,
        ids: Vec<Vec<u32>>,
        max_new_tokens: usize,
        growing: bool,
        device: &Device,
    ) -> (r: Result<(BatchStart, Request), TtsError>)
        requires
            embeds@.len() > 0,
            ids@.len() == embeds@.len(),
        ensures
            r matches Ok(start) ==> start.0.wf() && BatchStart::starts(
                embeds@,
                ids,
                max_new_tokens,
                growing,
                *device,
                start,
            ),
            r matches Err(e) ==> e.is_computing() || e is BadShape || e is EmptyPrefill,
            (r matches Err(e) && e is EmptyPrefill) ==> longest_of(embeds@) == 0,
            starts_on_cpu(
                embeds@,
                max_new_tokens,
                growing,
                device_location(*device),
            ) ==> r is Ok,
    {
        let len = longest(embeds);
        let d = dims(&embeds[0]);
        let n = embeds.len();
        let ghost location = device_location(*device);
        let ghost able = starts_on_cpu(embeds@, max_new_tokens, growing, location);
        proof {
            if able {
                assert(fits_padding(grid(embeds@[0]), len, tensor_dims(embeds@[0])[2], location));
            }
        }
        if d.len() <= 2 {
            return Err(TtsError::BadShape);
        }
        if len == 0 {
            return Err(TtsError::EmptyPrefill);
        }
        let width = d[2];
        let (padded, masks) = match pad_all(embeds, len, width, device) {
            Ok(both) => both,
            Err(e) => {
                return Err(e);
            },
        };
        proof {
            if able {
                let gs = grids(padded@);
                assert forall|i: int| 0 <= i < gs.len() implies (#[trigger] gs[i]).dims
                    == seq![1usize, len, width] && gs[i].dtype == tensor_dtype(embeds@[0])
                    && gs[i].location is Cpu by {
                    assert(fits_padding(grid(embeds@[i]), len, width, location));
                    assert(is_padded(embeds@[i], len, width, location, padded@[i]));
                    lemma_padded_shape(embeds@[i], len, width, location, padded@[i]);
                }
                lemma_total_ones(gs);
                assert(gs[0].dims.update(0, embeds@.len() as usize) =~= seq![
                    embeds@.len() as usize,
                    len,
                    width,
                ]);
                assert forall|i: int| 0 <= i < gs.len() implies gs[0].fits(#[trigger] gs[i], 0) by {}
                assert(gs[0] == grid(padded@[0]));
                assert(gs[0].dtype == tensor_dtype(embeds@[0]));
                assert(fits_padding(grid(embeds@[0]), len, width, location));
                assert(axis_total(gs, 0) == n);
                assert(joinable(gs, 0));
            }
        }
        let input = match concat(&padded, 0) {
            Ok(t) => t,
            Err(e) => {
                return Err(e);
            },
        };
        let mask = match build_batched_causal_mask(&masks, len, device) {
            Ok(t) => t,
            Err(e) => {
                return Err(e);
            },
        };
        let ask = if growing {
            Request::NewGrowingCaches
        } else {
            let capacity = match max_new_tokens.checked_add(len) {
                Some(n) => n.checked_add(BATCH_CACHE_MARGIN),
                None => None,
            };
            match capacity {
                Some(n) => Request::NewBatchCaches(ids.len(), n),
                None => {
                    return Err(TtsError::Overflow);
                },
            }
        };
        let start = (BatchStart { ids, len, width, phase: BatchPhase::Caching { input, mask } }, ask);
        proof {
            assert(are_padded(
                embeds@,
                start.0.len,
                start.0.width,
                device_location(*device),
                padded@,
                masks@,
            ));
            assert(BatchStart::starts(embeds@, ids, max_new_tokens, growing, *device, start));
        }
        Ok(start)
    }

    /// Ask for the logits of the next sequence.
    fn head(self, hidden: Tensor, before: Vec<Tensor>, logits: Vec<Tensor>) -> (r: Result<
        BatchStartTurn,
        TtsError,
    >)
        requires
            self.len > 0,
            before@.len() == logits@.len(),
            logits@.len() < self.ids@.len(),
        ensures
            r matches Ok(turn) ==> self.heads(hidden, before@, logits@, turn) && (
            turn matches BatchStartTurn::Ask(next, _) && next.wf()),
            r matches Err(e) ==> e.is_computing(),
            tensor_dims(hidden).len() > 1 && tensor_dims(hidden)[0] > before@.len() && tensor_dims(
                hidden,
            )[1] >= self.len ==> r is Ok,
    {
        match last_row(&hidden, before.len(), self.len) {
            Ok(last) => {
                let mut last_hiddens = before;
                last_hiddens.push(copy(&last));
                let phase = BatchPhase::Heads { hidden, last_hiddens, logits };
                Ok(BatchStartTurn::Ask(BatchStart { phase, ..self }, Request::CodecHead(last)))
            },
            Err(e) => Err(e),
        }
    }

    /// Build the trailing text of the next sequence, if there is one.
    fn trail(
        self,
        last_hiddens: Vec<Tensor>,
        logits: Vec<Tensor>,
        pad: Tensor,
        trailings: Vec<Tensor>,
        lens: Vec<usize>,
    ) -> (r: BatchStartTurn)
        requires
            self.len > 0,
            last_hiddens@.len() == self.ids@.len(),
            logits@.len() == self.ids@.len(),
            trailings@.len() == lens@.len(),
            trailings@.len() <= self.ids@.len(),
        ensures
            self.trailed(last_hiddens, logits, pad, trailings@, lens@, r),
            r matches BatchStartTurn::Ask(next, _) ==> next.wf(),
    {
        if trailings.len() < self.ids.len() {
            let (text, ask) = TrailingText::start(&self.ids[trailings.len()]);
            let phase = BatchPhase::Trailing { last_hiddens, logits, pad, trailings, lens, text };
            BatchStartTurn::Ask(BatchStart { phase, ..self }, ask)
        } else {
            BatchStartTurn::Ready(
                BatchReady {
                    offset: self.len,
                    width: self.width,
                    last_hiddens,
                    logits,
                    pad,
                    trailings,
                    lens,
                },
            )
        }
    }

    /// Take up a reply.
    pub fn step(self, reply: Reply) -> (r: Result<BatchStartTurn, TtsError>)
        requires
            self.wf(),
        ensures
            r matches Ok(turn) ==> self.steps(reply, turn),
            r matches Ok(BatchStartTurn::Ask(next, _)) ==> next.wf() && next.ids@.len()
                == self.ids@.len(),
            r matches Ok(BatchStartTurn::Ready(b)) ==> {
                &&& b.last_hiddens@.len() == self.ids@.len()
                &&& b.logits@.len() == self.ids@.len()
                &&& b.trailings@.len() == self.ids@.len()
                &&& b.lens@.len() == self.ids@.len()
            },
            (r matches Err(e) && e is UnexpectedReply) <==> !self.awaits(reply),
            self.accepts(reply) ==> r is Ok,
    {
        match (self.phase, reply) {
            (BatchPhase::Caching { input, mask }, Reply::Done) => {
                let ask = Request::Forward { input, mask: Some(mask), offset: 0 };
                Ok(BatchStartTurn::Ask(BatchStart { phase: BatchPhase::Layers, ..self }, ask))
            },
            (BatchPhase::Layers, Reply::Tensor(hidden)) => {
                let next = BatchStart { phase: BatchPhase::Norm, ..self };
                Ok(BatchStartTurn::Ask(next, Request::Norm(hidden)))
            },
            (BatchPhase::Norm, Reply::Tensor(hidden)) => {
                let rest = BatchStart { phase: BatchPhase::Layers, ..self };
                rest.head(hidden, Vec::new(), Vec::new())
            },
            (BatchPhase::Heads { hidden, last_hiddens, logits }, Reply::Tensor(l)) => {
                let mut all = logits;
                all.push(l);
                if all.len() < self.ids.len() {
                    let rest = BatchStart { phase: BatchPhase::Layers, ..self };
                    rest.head(hidden, last_hiddens, all)
                } else {
                    let phase = BatchPhase::Padding { last_hiddens, logits: all };
                    Ok(BatchStartTurn::Ask(BatchStart { phase, ..self }, Request::TtsPad))
                }
            },
            (BatchPhase::Padding { last_hiddens, logits }, Reply::Tensor(pad)) => {
                let rest = BatchStart { phase: BatchPhase::Layers, ..self };
                Ok(rest.trail(last_hiddens, logits, pad, Vec::new(), Vec::new()))
            },
            (
                BatchPhase::Trailing { last_hiddens, logits, pad, trailings, lens, text },
                reply,
            ) => match text.step(reply) {
                Ok(TrailingTurn::Ask(text, ask)) => {
                    let phase = BatchPhase::Trailing {
                        last_hiddens,
                        logits,
                        pad,
                        trailings,
                        lens,
                        text,
                    };
                    Ok(BatchStartTurn::Ask(BatchStart { phase, ..self }, ask))
                },
                Ok(TrailingTurn::Built { trailing, len, pad: _ }) => {
                    let mut ts = trailings;
                    let mut ls = lens;
                    ts.push(trailing);
                    ls.push(len);
                    let rest = BatchStart { phase: BatchPhase::Layers, ..self };
                    Ok(rest.trail(last_hiddens, logits, pad, ts, ls))
                },
                Err(e) => Err(e),
            },
            _ => Err(TtsError::UnexpectedReply),
        }
    }
}

} // verus!
