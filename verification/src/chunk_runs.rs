//! What holds of a whole streaming session: it gives the frames of a synthesis that
//! is not streamed, cut into chunks.
use crate::chunks::{are_chunks, lemma_one_more_chunk};
use crate::code_loop::ends_with;
use crate::codes::values;
use crate::generator::{GenTurn, Generator, Phase};
use crate::grid::cells_of;
use crate::options::GenerationConfig;
use crate::prefill::Prefilled;
use crate::request::{Reply, Request};
use crate::runs::{
    ends_at_last, heard, law_codes_told, lemma_numbers_of, numbers_of, same_replies, CodeRun, Heard,
};
use crate::session::{
    ChunkTurn, StartStage, StartTurn, StreamingSession, StreamingStart, Waiting,
};
use candle_core::Device;
use vstd::prelude::*;

verus! {

/// That a reply leads to a turn.
#[verifier::opaque]
pub open spec fn start_leads(s: StreamingStart, reply: Reply, turn: StartTurn) -> bool {
    s.wf() && s.steps(reply, turn)
}

/// The start of a session behind its prompt: the first token is sampled.
pub struct StartRun {
    /// The state before each reply.
    pub states: Seq<StreamingStart>,
    /// What was asked behind each reply but the last one.
    pub asks: Seq<Request>,
    pub replies: Seq<Reply>,
    pub session: StreamingSession,
}

impl StartRun {
    /// Whether each step is one of the start, and the last one opens the session.
    pub open spec fn wf(self) -> bool {
        let n = self.replies.len() as int;
        &&& n > 0
        &&& self.states.len() == n
        &&& self.asks.len() == n - 1
        &&& forall|i: int|
            0 <= i < n - 1 ==> start_leads(
                self.states[i],
                #[trigger] self.replies[i],
                StartTurn::Ask(self.states[i + 1], self.asks[i]),
            )
        &&& start_leads(
            self.states[n - 1],
            self.replies[n - 1],
            StartTurn::Session(self.session),
        )
    }

    /// Whether the start begins behind this prompt.
    pub open spec fn starts(self, f: Prefilled, device: Device) -> bool {
        &&& self.states[0].stage matches StartStage::Sampling(g)
        &&& exists|ask: Request| #[trigger] Generator::starts(f, device, (g, ask))
    }
}

/// What happens to a session.
pub enum SessionEvent {
    /// The next chunk is asked for.
    Next,
    /// The model replies.
    Heard(Reply),
}

/// A run of a session, chunk after chunk.
pub struct SessionRun {
    /// The state before each event, and the last one.
    pub states: Seq<StreamingSession>,
    pub events: Seq<SessionEvent>,
    /// What was wanted behind each event.
    pub turns: Seq<ChunkTurn>,
}

/// That an event leads from one state of a session to another.
pub open spec fn happens(
    s: StreamingSession,
    event: SessionEvent,
    next: StreamingSession,
    turn: ChunkTurn,
) -> bool {
    match event {
        SessionEvent::Next => {
            &&& s.waiting == Waiting::Nothing
            &&& if s.done {
                s.flushes(next, turn)
            } else {
                s.continues(next, turn)
            }
        },
        SessionEvent::Heard(reply) => s.steps(reply, next, turn),
    }
}

/// That an event leads from one state of a session to another, both in order.
#[verifier::opaque]
pub open spec fn event_leads(
    s: StreamingSession,
    event: SessionEvent,
    next: StreamingSession,
    turn: ChunkTurn,
) -> bool {
    s.wf() && next.wf() && happens(s, event, next, turn)
}

impl SessionRun {
    /// Whether each event leads from a state to the next one.
    pub open spec fn wf(self) -> bool {
        let n = self.events.len() as int;
        &&& self.states.len() == n + 1
        &&& self.turns.len() == n
        &&& forall|i: int|
            0 <= i < n ==> event_leads(
                self.states[i],
                #[trigger] self.events[i],
                self.states[i + 1],
                self.turns[i],
            )
    }

    /// Whether the session says at last that there are no more chunks.
    pub open spec fn ends(self) -> bool {
        self.turns.len() > 0 && self.turns.last() == ChunkTurn::End
    }

    /// The replies of the first `k` events that generation went on with.
    pub open spec fn told(self, k: int) -> Seq<Reply>
        decreases k,
    {
        if k <= 0 {
            Seq::empty()
        } else {
            match self.events[k - 1] {
                SessionEvent::Heard(reply) if self.states[k - 1].waiting == Waiting::Model => {
                    self.told(k - 1).push(reply)
                },
                _ => self.told(k - 1),
            }
        }
    }

    /// The frames that were handed to the decoder during the first `k` events, chunk
    /// by chunk.
    pub open spec fn chunks(self, k: int) -> Seq<Seq<Seq<u32>>>
        decreases k,
    {
        if k <= 0 {
            Seq::empty()
        } else {
            let before = self.states[k - 1].sent@;
            let after = self.states[k].sent@;
            if after.len() > before.len() {
                self.chunks(k - 1).push(after.skip(before.len() as int))
            } else {
                self.chunks(k - 1)
            }
        }
    }
}

impl StreamingSession {
    /// Whether the session has come to what the replies tell.
    pub open spec fn has_heard(self, h: Heard) -> bool {
        &&& numbers_of(self.made@) == h.frames
        &&& match self.generator {
            Some(g) => match g.phase {
                Phase::Ready { id, token } => if ends_with(self.config, self.made@.len(), id) {
                    h.phase == Phase::Ready { id, token }
                } else {
                    h.phase == Phase::Embedding { id, token }
                },
                p => h.phase == p,
            },
            None => h.is_over(),
        }
    }

    /// Whether no frame can be added any more.
    pub open spec fn is_finished(self) -> bool {
        self.generator is None || self.frames_generated >= self.config.max_new_tokens
    }
}

/// The start of a session comes to what the replies tell.
proof fn lemma_start_run(a: StartRun, f: Prefilled, device: Device, k: int)
    requires
        a.wf(),
        a.starts(f, device),
        0 <= k < a.replies.len(),
    ensures
        a.states[k].stage matches StartStage::Sampling(g) && g.config == f.config && g.phase
            == heard(f.config, a.replies.take(k)).phase && heard(
            f.config,
            a.replies.take(k),
        ).frames.len() == 0,
    decreases k,
{
    if k == 0 {
        assert(a.replies.take(0).len() == 0);
    } else {
        lemma_start_run(a, f, device, k - 1);
        assert(start_leads(
            a.states[k - 1],
            a.replies[k - 1],
            StartTurn::Ask(a.states[k - 1 + 1], a.asks[k - 1]),
        ));
        reveal(start_leads);
        assert(a.replies.take(k).drop_last() =~= a.replies.take(k - 1));
        assert(a.replies.take(k).last() == a.replies[k - 1]);
    }
}

/// A session opens with what the replies tell.
proof fn lemma_opened(a: StartRun, f: Prefilled, device: Device)
    requires
        a.wf(),
        a.starts(f, device),
    ensures
        a.session.has_heard(heard(f.config, a.replies)),
        a.session.config == f.config,
        a.session.made@.len() == 0,
        a.session.sent@.len() == 0,
        a.session.waiting == Waiting::Nothing,
        forall|k: int|
            0 <= k < a.replies.len() ==> !(#[trigger] heard(f.config, a.replies.take(k))).is_over(),
{
    let n = a.replies.len() as int;
    assert forall|k: int| 0 <= k < n implies !(#[trigger] heard(
        f.config,
        a.replies.take(k),
    )).is_over() by {
        lemma_start_run(a, f, device, k);
        let turn = if k < n - 1 {
            StartTurn::Ask(a.states[k + 1], a.asks[k])
        } else {
            StartTurn::Session(a.session)
        };
        assert(start_leads(a.states[k], a.replies[k], turn));
        reveal(start_leads);
    }
    lemma_start_run(a, f, device, n - 1);
    reveal(start_leads);
    assert(a.replies.drop_last() =~= a.replies.take(n - 1));
    assert(numbers_of(a.session.made@) =~= Seq::<Seq<int>>::empty());
    assert(heard(f.config, a.replies).frames =~= Seq::<Seq<int>>::empty());
}

/// An event comes to what the reply tells, where it is one of the model, and adds a
/// chunk at most.
proof fn lemma_event(
    s: StreamingSession,
    h: Heard,
    event: SessionEvent,
    next: StreamingSession,
    turn: ChunkTurn,
)
    requires
        s.wf(),
        next.wf(),
        s.has_heard(h),
        happens(s, event, next, turn),
    ensures
        next.config == s.config,
        next.chunk_frames == s.chunk_frames,
        match event {
            SessionEvent::Heard(reply) if s.waiting == Waiting::Model => {
                &&& !h.is_over()
                &&& next.has_heard(h.hears(s.config, reply))
            },
            _ => next.has_heard(h),
        },
        s.made@.is_prefix_of(next.made@),
        s.sent@.is_prefix_of(next.sent@),
        next.sent@.len() > s.sent@.len() ==> {
            &&& next.sent@ == s.made@
            &&& next.frame_buffer@.len() == 0
            &&& s.frame_buffer@.len() < s.chunk_frames ==> next.is_finished()
        },
        s.is_finished() ==> next.is_finished() && next.made@ == s.made@,
        turn == ChunkTurn::End ==> next.frame_buffer@.len() == 0 && (s.chunk_frames > 0
            ==> next.is_finished()) && next.waiting == Waiting::Nothing,
{
    let sent = s.sent@;
    assert(sent.subrange(0, sent.len() as int) =~= sent);
    assert(s.made@.subrange(0, s.made@.len() as int) =~= s.made@);
    assert(values(s.frame_buffer@).len() == s.frame_buffer@.len());
    assert(values(next.frame_buffer@).len() == next.frame_buffer@.len());
    assert(s.made@ == sent + values(s.frame_buffer@));
    assert((sent + values(s.frame_buffer@)).subrange(0, sent.len() as int) =~= sent);
    match event {
        SessionEvent::Heard(reply) if s.waiting == Waiting::Model => {
            let g0 = s.generator->0;
            let (g, t) = choose|g: Generator, t: GenTurn| #[trigger]
                g0.steps(reply, g, t) && s.follows(g, t, next, turn);
            if let GenTurn::Frame { id, acoustic, .. } = t {
                let now = h.hears(s.config, reply);
                let frame = next.frame_buffer@.last()@;
                assert(next.made@ == s.made@.push(frame));
                assert(next.made@.subrange(0, s.made@.len() as int) =~= s.made@);
                assert(numbers_of(next.made@) =~= numbers_of(s.made@).push(cells_of(frame)));
                assert(numbers_of(s.made@).len() == s.made@.len());
            } else {
                assert(numbers_of(s.made@).len() == s.made@.len());
            }
        },
        _ => {},
    }
}

/// What holds of a session after the first `k` events.
spec fn holds_after(run: SessionRun, first: Seq<Reply>, config: GenerationConfig, c: usize, k: int) -> bool {
    let r = first + run.told(k);
    let s = run.states[k];
    let chunks = run.chunks(k);
    &&& s.has_heard(heard(config, r))
    &&& s.config == config
    &&& s.chunk_frames == c
    &&& forall|j: int| 0 <= j < r.len() ==> !(#[trigger] heard(config, r.take(j))).is_over()
    &&& are_chunks(s.sent@, c as int, chunks)
    &&& s.sent@.len() == chunks.len() * c || (s.is_finished() && s.frame_buffer@.len() == 0)
}

/// It holds after each event.
proof fn lemma_session_run(run: SessionRun, a: StartRun, f: Prefilled, device: Device, k: int)
    requires
        a.wf(),
        a.starts(f, device),
        run.wf(),
        run.states[0] == a.session,
        a.session.chunk_frames > 0,
        0 <= k <= run.events.len(),
    ensures
        holds_after(run, a.replies, f.config, a.session.chunk_frames, k),
    decreases k,
{
    let c = a.session.chunk_frames;
    if k == 0 {
        lemma_opened(a, f, device);
        assert(a.replies + run.told(0) =~= a.replies);
        assert(run.chunks(0).len() == 0);
        assert(0 * c == 0);
    } else {
        lemma_session_run(run, a, f, device, k - 1);
        let s = run.states[k - 1];
        let next = run.states[k];
        let event = run.events[k - 1];
        let before = a.replies + run.told(k - 1);
        let r = a.replies + run.told(k);
        let h = heard(f.config, before);
        assert(event_leads(s, run.events[k - 1], run.states[k - 1 + 1], run.turns[k - 1]));
        reveal(event_leads);
        lemma_event(s, h, event, next, run.turns[k - 1]);
        match event {
            SessionEvent::Heard(reply) if s.waiting == Waiting::Model => {
                assert(r =~= before.push(reply));
                assert(r.drop_last() =~= before);
                assert forall|j: int| 0 <= j < r.len() implies !(#[trigger] heard(
                    f.config,
                    r.take(j),
                )).is_over() by {
                    if j < before.len() {
                        assert(r.take(j) =~= before.take(j));
                    } else {
                        assert(r.take(j) =~= before);
                    }
                }
            },
            _ => {
                assert(r =~= before);
            },
        }
        assert(values(s.frame_buffer@).len() == s.frame_buffer@.len());
        assert(values(next.frame_buffer@).len() == next.frame_buffer@.len());
        let chunks = run.chunks(k - 1);
        if next.sent@.len() > s.sent@.len() {
            assert(next.sent@.len() == s.sent@.len() + s.frame_buffer@.len());
            lemma_one_more_chunk(s.sent@, next.sent@, c as int, chunks);
            assert((chunks.len() + 1) * c == chunks.len() * c + c) by (nonlinear_arith);
        } else {
            assert(next.sent@ =~= s.sent@);
        }
    }
}

/// A streaming session gives the frames of a synthesis that is not streamed, cut
/// into chunks: no frame is lost, repeated or reordered. This holds for preset
/// speakers and for described voices, where both runs get the same replies as long
/// as both go on and each frame has a code for each codebook.
pub proof fn law_stream_is_plain(
    a: StartRun,
    run: SessionRun,
    f: Prefilled,
    plain: CodeRun,
    g: Prefilled,
    device: Device,
)
    requires
        a.wf(),
        a.starts(f, device),
        run.wf(),
        run.states[0] == a.session,
        run.ends(),
        a.session.chunk_frames > 0,
        plain.wf(),
        plain.starts(g, device),
        f.config == g.config,
        same_replies(a.replies + run.told(run.events.len() as int), plain.replies),
        heard(g.config, plain.replies).is_full(),
    ensures
        run.states.last().made@ == values(plain.codes@),
        run.states.last().frames_generated == plain.codes@.len(),
        are_chunks(
            values(plain.codes@),
            a.session.chunk_frames as int,
            run.chunks(run.events.len() as int),
        ),
{
    let n = run.events.len() as int;
    let c = a.session.chunk_frames;
    let s = run.states[n];
    let r = a.replies + run.told(n);
    lemma_session_run(run, a, f, device, n);
    lemma_session_run(run, a, f, device, n - 1);
    assert(event_leads(
        run.states[n - 1],
        run.events[n - 1],
        run.states[n - 1 + 1],
        run.turns[n - 1],
    ));
    reveal(event_leads);
    lemma_event(
        run.states[n - 1],
        heard(f.config, a.replies + run.told(n - 1)),
        run.events[n - 1],
        s,
        run.turns[n - 1],
    );
    assert(heard(f.config, r).is_over());
    law_codes_told(plain, g, device);
    assert(ends_at_last(g.config, plain.replies));
    let m = plain.replies.len() as int;
    if r.len() < m {
        assert(plain.replies.take(r.len() as int) =~= r);
        assert(!heard(g.config, plain.replies.take(r.len() as int)).is_over());
    } else if m < r.len() {
        assert(r.take(m) =~= plain.replies);
        assert(!heard(f.config, r.take(m)).is_over());
    }
    assert(r =~= plain.replies);
    lemma_numbers_of(s.made@, values(plain.codes@));
    assert(values(plain.codes@).len() == plain.codes@.len());
    assert(values(s.frame_buffer@).len() == s.frame_buffer@.len());
    assert(s.made@ =~= s.sent@);
}

/// A session that said that there are no more chunks says so ever after, and makes
/// no more frames.
pub proof fn law_end_stays(
    s: StreamingSession,
    event: SessionEvent,
    next: StreamingSession,
    after: StreamingSession,
    turn: ChunkTurn,
)
    requires
        s.wf(),
        next.wf(),
        happens(s, event, next, ChunkTurn::End),
        happens(next, SessionEvent::Next, after, turn),
    ensures
        turn == ChunkTurn::End,
        after.frames_generated == next.frames_generated,
        after.made@ == next.made@,
{
}

/// A session in which a step of generation failed makes no more frames: what was
/// buffered before comes in one more chunk at most, and then there are none.
pub proof fn law_no_more_frames(
    s: StreamingSession,
    event: SessionEvent,
    next: StreamingSession,
    turn: ChunkTurn,
)
    requires
        s.wf(),
        s.generator is None,
        happens(s, event, next, turn),
    ensures
        next.generator is None,
        next.frames_generated == s.frames_generated,
        next.made@ == s.made@,
        event is Next && s.frame_buffer@.len() == 0 ==> turn == ChunkTurn::End,
        event is Next ==> next.frame_buffer@.len() == 0,
{
}

} // verus!
