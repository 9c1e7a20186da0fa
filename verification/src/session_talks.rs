//! What a streaming session asks for, from the text to the last chunk: each request, told
//! by what was asked and replied before.
use crate::audio::AudioBuffer;
use crate::chunk_runs::{happens, SessionEvent};
use crate::codes::{values, CODEBOOKS};
use crate::generator::{GenTurn, Generator};
use crate::grid::cells_of;
use crate::loop_talks::{follows, has_come, lemma_begins, lemma_comes, lemma_goes_on};
use crate::options::GenerationConfig;
use crate::prefill::{Prefill, PrefillPhase, PrefillTurn, Voice};
use crate::request::{Reply, Request};
use crate::session::{
    ChunkTurn, StartStage, StartTurn, StreamingSession, StreamingStart, Waiting,
};
use crate::synth_talks::{
    all_codes_told, code_told, lemma_column, lemma_prompt, prompt_come, runs_prompt,
};
use crate::talks::{is_task, lemma_count_grows, Talk, Task};
use crate::tensor::{device_location, grid, tensor_cells, tensor_dims};
use candle_core::Tensor;
use vstd::prelude::*;

verus! {

/// A session that waits for a reply: it is being opened, or it is open.
pub enum Open {
    Start(StreamingStart),
    Session(StreamingSession),
}

/// That the next chunk of a session starts with this request.
pub open spec fn asks_for_chunk(s: StreamingSession, next: StreamingSession, ask: Request) -> bool {
    s.wf() && next.wf() && happens(s, SessionEvent::Next, next, ChunkTurn::Ask(ask))
}

/// That a reply leads to the next request. Where it ends a chunk, or opens the session,
/// the next chunk is asked for.
#[verifier::opaque]
pub open spec fn session_leads(a: Open, reply: Reply, b: Open, ask: Request) -> bool {
    match (a, b) {
        (Open::Start(s), Open::Start(next)) => s.wf() && next.wf() && s.steps(
            reply,
            StartTurn::Ask(next, ask),
        ),
        (Open::Start(s), Open::Session(next)) => s.wf() && exists|o: StreamingSession| #[trigger]
            s.steps(reply, StartTurn::Session(o)) && asks_for_chunk(o, next, ask),
        (Open::Session(s), Open::Session(next)) => s.wf() && next.wf() && (s.steps(
            reply,
            next,
            ChunkTurn::Ask(ask),
        ) || exists|o: StreamingSession, chunk: AudioBuffer| #[trigger]
            s.steps(reply, o, ChunkTurn::Chunk(chunk)) && asks_for_chunk(o, next, ask)),
        _ => false,
    }
}

/// A session as far as it has come, with what was asked and replied.
pub struct SessionTalk {
    /// The state in which each request waits for its reply.
    pub states: Seq<Open>,
    pub talk: Talk,
}

impl SessionTalk {
    /// Whether each reply leads from one request to the next.
    pub open spec fn wf(self) -> bool {
        &&& self.states.len() == self.talk.asked.len()
        &&& self.talk.replies.len() + 1 == self.talk.asked.len()
        &&& forall|i: int|
            0 <= i < self.talk.replies.len() ==> session_leads(
                self.states[i],
                #[trigger] self.talk.replies[i],
                self.states[i + 1],
                self.talk.asked[i + 1],
            )
    }

    /// Whether the session streams this text in this voice.
    pub open spec fn streams(
        self,
        text: Seq<char>,
        voice: Voice,
        config: GenerationConfig,
        chunk_frames: usize,
    ) -> bool {
        &&& self.wf()
        &&& self.states[0] matches Open::Start(s)
        &&& s.chunk_frames == chunk_frames
        &&& s.stage == StartStage::Prefill(
            Prefill { config, phase: PrefillPhase::Encoding(voice) },
        )
        &&& self.talk.asked[0] matches Request::Encode(t)
        &&& t@ == text
    }
}

/// How many frames were handed to the decoder before place `k`.
pub open spec fn decoded_before(talk: Talk, k: int) -> int
    decreases k,
{
    if k <= 0 {
        0
    } else {
        decoded_before(talk, k - 1) + match talk.asked[k - 1] {
            Request::Decode(t) => tensor_dims(t)[2] as int,
            _ => 0,
        }
    }
}

/// Whether the token that was sampled last before place `k` is end-of-sequence.
pub open spec fn has_ended(talk: Talk, k: int, config: GenerationConfig) -> bool {
    let j = talk.latest(k, Task::Sample);
    &&& j >= 0
    &&& talk.replies[j] matches Reply::Tensor(token)
    &&& config.eos_token_id matches Some(eos)
    &&& tensor_cells(token)[0] == eos
}

/// That a chunk is decoded at place `k`: the frames that were made and not decoded yet,
/// in order. A chunk is only shorter than the others where no frame comes behind it.
pub open spec fn is_chunk(
    talk: Talk,
    k: int,
    config: GenerationConfig,
    chunk_frames: usize,
    t: Tensor,
) -> bool {
    let d = decoded_before(talk, k);
    let n = talk.count(k, Task::Acoustic) as int;
    &&& 0 < n - d <= chunk_frames
    &&& n - d < chunk_frames ==> n == config.max_new_tokens || has_ended(talk, k, config)
    &&& tensor_dims(t) == seq![1usize, CODEBOOKS, (n - d) as usize]
    &&& all_codes_told(talk, k) ==> forall|j: int, q: int|
        0 <= j < k && talk.asked[j] is Acoustic && talk.count(j, Task::Acoustic) >= d && 0 <= q
            < CODEBOOKS ==> tensor_cells(t)[q * (n - d) + talk.count(j, Task::Acoustic) - d]
            == #[trigger] code_told(talk, j, q)
}

/// That these are the codes of the frames that were made before place `k`, in order.
pub open spec fn are_made(talk: Talk, k: int, made: Seq<Seq<u32>>) -> bool {
    &&& made.len() == talk.count(k, Task::Acoustic)
    &&& forall|j: int|
        0 <= j < k && #[trigger] talk.asked[j] is Acoustic ==> {
            &&& talk.count(j, Task::Acoustic) < made.len()
            &&& talk.replies[j] matches Reply::Tensor(codes)
            &&& cells_of(made[talk.count(j, Task::Acoustic) as int]) == seq![
                code_told(talk, j, 0),
            ] + tensor_cells(codes)
        }
}

/// One more frame is made.
proof fn lemma_made(talk: Talk, k: int, made: Seq<Seq<u32>>, frame: Seq<u32>, codes: Tensor)
    requires
        0 <= k,
        are_made(talk, k, made),
        talk.asked[k] is Acoustic,
        talk.replies[k] == Reply::Tensor(codes),
        cells_of(frame) == seq![code_told(talk, k, 0)] + tensor_cells(codes),
    ensures
        are_made(talk, k + 1, made.push(frame)),
{
    let more = made.push(frame);
    assert forall|j: int| 0 <= j < k + 1 && #[trigger] talk.asked[j] is Acoustic implies {
        &&& talk.count(j, Task::Acoustic) < more.len()
        &&& talk.replies[j] matches Reply::Tensor(codes)
        &&& cells_of(more[talk.count(j, Task::Acoustic) as int]) == seq![code_told(talk, j, 0)]
            + tensor_cells(codes)
    } by {
        if j < k {
            let f = talk.count(j, Task::Acoustic) as int;
            assert(more[f] == made[f]);
        }
    }
}

/// No frame is made where something else was asked for.
proof fn lemma_not_made(talk: Talk, k: int, made: Seq<Seq<u32>>)
    requires
        0 <= k,
        are_made(talk, k, made),
        !(talk.asked[k] is Acoustic),
    ensures
        are_made(talk, k + 1, made),
{
    assert forall|j: int| 0 <= j < k + 1 && #[trigger] talk.asked[j] is Acoustic implies {
        &&& talk.count(j, Task::Acoustic) < made.len()
        &&& talk.replies[j] matches Reply::Tensor(codes)
        &&& cells_of(made[talk.count(j, Task::Acoustic) as int]) == seq![code_told(talk, j, 0)]
            + tensor_cells(codes)
    } by {
        assert(j < k);
    }
}

/// What is known of an open session between two requests, at place `k`.
pub open spec fn idle_come(talk: Talk, k: int, config: GenerationConfig, chunk_frames: usize, s: StreamingSession) -> bool {
    &&& s.config == config
    &&& s.chunk_frames == chunk_frames
    &&& are_made(talk, k, s.made@)
    &&& s.sent@.len() == decoded_before(talk, k)
    &&& s.generator matches Some(g) ==> has_come(talk, k, g)
    &&& s.generator is None ==> has_ended(talk, k, config)
}

/// That an open session waits for the reply to the request at place `k`.
#[verifier::opaque]
pub open spec fn open_come(
    talk: Talk,
    k: int,
    voice: Voice,
    config: GenerationConfig,
    chunk_frames: usize,
    o: Open,
) -> bool {
    match o {
        Open::Start(s) => s.wf() && s.chunk_frames == chunk_frames && match s.stage {
            StartStage::Prefill(p) => prompt_come(talk, k, voice, p) && p.config == config
                && no_frames(talk, k),
            StartStage::Sampling(g) => has_come(talk, k, g) && g.config == config && follows(
                talk,
                k,
                config,
            ) && no_frames(talk, k),
        },
        Open::Session(s) => {
            &&& s.config == config
            &&& s.chunk_frames == chunk_frames
            &&& are_made(talk, k, s.made@)
            &&& s.generator matches Some(g) ==> has_come(talk, k, g)
            &&& s.generator is None ==> has_ended(talk, k, config)
            &&& follows(talk, k, config)
            &&& match s.waiting {
                Waiting::Nothing => false,
                Waiting::Model => s.sent@.len() == decoded_before(talk, k) && !(
                talk.asked[k] is Decode) && !(talk.asked[k] is ToAudio) && !(talk.asked[k] is NewCaches) && !is_task(
                    talk.asked[k],
                    Task::Prompt,
                ),
                Waiting::Waveform => {
                    &&& talk.asked[k] matches Request::Decode(t)
                    &&& is_chunk(talk, k, config, chunk_frames, t)
                    &&& s.sent@.len() == decoded_before(talk, k + 1)
                },
                Waiting::Audio => {
                    &&& 0 < k
                    &&& talk.asked[k - 1] is Decode
                    &&& talk.replies[k - 1] matches Reply::Tensor(waveform)
                    &&& talk.asked[k] == Request::ToAudio(waveform, 24000)
                    &&& s.sent@.len() == decoded_before(talk, k)
                },
            }
        },
    }
}

/// Whether no frame was made and nothing decoded before place `k`.
pub open spec fn no_frames(talk: Talk, k: int) -> bool {
    talk.count(k, Task::Acoustic) == 0 && decoded_before(talk, k) == 0
}

/// A generator with a token ready waits while a chunk is decoded.
proof fn lemma_waits(talk: Talk, k: int, g: Generator)
    requires
        0 <= k,
        has_come(talk, k, g),
        g.phase is Ready,
        talk.asked[k] is Decode || talk.asked[k] is ToAudio,
    ensures
        has_come(talk, k + 1, g),
{
    crate::loop_talks::lemma_marks_stay(talk, k, g.penalty_mask);
}

/// The buffered frames are decoded.
proof fn lemma_flushes(
    talk: Talk,
    k: int,
    voice: Voice,
    config: GenerationConfig,
    chunk_frames: usize,
    s: StreamingSession,
    next: StreamingSession,
)
    requires
        0 <= k,
        s.wf(),
        next.wf(),
        idle_come(talk, k, config, chunk_frames, s),
        s.flushes(next, ChunkTurn::Ask(talk.asked[k])),
        s.wants_frame() ==> s.generator is None,
    ensures
        open_come(talk, k, voice, config, chunk_frames, Open::Session(next)),
{
    reveal(open_come);
    let t = talk.asked[k]->Decode_0;
    let buffer = values(s.frame_buffer@);
    let d = decoded_before(talk, k);
    let n = talk.count(k, Task::Acoustic) as int;
    let location = device_location(s.device);
    assert(buffer.len() == s.frame_buffer@.len());
    assert(s.made@.len() == s.sent@.len() + buffer.len());
    assert(n - d == buffer.len());
    assert(grid(t).dims == tensor_dims(t));
    assert(grid(t).cells == tensor_cells(t));
    if all_codes_told(talk, k) {
        assert forall|j: int, q: int|
            0 <= j < k && talk.asked[j] is Acoustic && talk.count(j, Task::Acoustic) >= d && 0 <= q
                < CODEBOOKS implies tensor_cells(t)[q * (n - d) + talk.count(j, Task::Acoustic) - d]
            == #[trigger] code_told(talk, j, q) by {
            let f = talk.count(j, Task::Acoustic) as int;
            lemma_count_grows(talk, j, k, Task::Acoustic);
            assert(talk.asked[j] is Acoustic);
            let frame = s.made@[f];
            assert(buffer[f - d] == frame);
            assert(cells_of(frame).len() == frame.len());
            assert(cells_of(frame)[q] == frame[q]);
            lemma_column(buffer, location, f - d, q);
        }
    }
}

/// A chunk is filled up.
proof fn lemma_continues(
    talk: Talk,
    k: int,
    voice: Voice,
    config: GenerationConfig,
    chunk_frames: usize,
    s: StreamingSession,
    next: StreamingSession,
)
    requires
        0 <= k,
        s.wf(),
        next.wf(),
        s.waiting == Waiting::Nothing,
        idle_come(talk, k, config, chunk_frames, s),
        s.continues(next, ChunkTurn::Ask(talk.asked[k])),
    ensures
        open_come(talk, k, voice, config, chunk_frames, Open::Session(next)),
{
    if s.wants_frame() {
        match s.generator {
            Some(g) => {
                reveal(open_come);
                lemma_begins(talk, k, g);
            },
            None => {
                let over = StreamingSession { done: true, ..s };
                lemma_flushes(talk, k, voice, config, chunk_frames, over, next);
            },
        }
    } else {
        lemma_flushes(talk, k, voice, config, chunk_frames, s, next);
    }
}

/// The next chunk is asked for.
proof fn lemma_chunk(
    talk: Talk,
    k: int,
    voice: Voice,
    config: GenerationConfig,
    chunk_frames: usize,
    s: StreamingSession,
    next: StreamingSession,
)
    requires
        0 <= k,
        idle_come(talk, k, config, chunk_frames, s),
        asks_for_chunk(s, next, talk.asked[k]),
    ensures
        open_come(talk, k, voice, config, chunk_frames, Open::Session(next)),
{
    if s.done {
        lemma_flushes(talk, k, voice, config, chunk_frames, s, next);
    } else {
        lemma_continues(talk, k, voice, config, chunk_frames, s, next);
    }
}

/// A reply of the model leads on in an open session.
proof fn lemma_model(
    talk: Talk,
    k: int,
    voice: Voice,
    config: GenerationConfig,
    chunk_frames: usize,
    s: StreamingSession,
    next: StreamingSession,
)
    requires
        0 <= k,
        s.wf(),
        next.wf(),
        s.waiting == Waiting::Model,
        open_come(talk, k, voice, config, chunk_frames, Open::Session(s)),
        s.steps(talk.replies[k], next, ChunkTurn::Ask(talk.asked[k + 1])),
    ensures
        open_come(talk, k + 1, voice, config, chunk_frames, Open::Session(next)),
{
    let reply = talk.replies[k];
    let turn = ChunkTurn::Ask(talk.asked[k + 1]);
    let g0 = s.generator->0;
    let (g, t) = choose|g: Generator, t: GenTurn| #[trigger]
        g0.steps(reply, g, t) && s.follows(g, t, next, turn);
    assert(g.wf()) by {
        reveal(open_come);
        lemma_generator_wf(talk, k, g0, g, t);
    }
    assert(has_come(talk, k, g0)) by {
        reveal(open_come);
    }
    lemma_goes_on(talk, k, g0, g, t);
    assert(are_made(talk, k, s.made@) && s.sent@.len() == decoded_before(talk, k + 1) && s.config
        == config && s.chunk_frames == chunk_frames) by {
        reveal(open_come);
    }
    match t {
        GenTurn::Ask(ask) => {
            lemma_not_made(talk, k, s.made@);
            reveal(open_come);
        },
        GenTurn::Frame { id, token, acoustic, ask } => {
            lemma_made(talk, k, s.made@, next.frame_buffer@.last()@, acoustic);
            reveal(open_come);
        },
        GenTurn::Token => {
            lemma_not_made(talk, k, s.made@);
            let o = s.took(g);
            assert(o.wf());
            lemma_continues(talk, k + 1, voice, config, chunk_frames, o, next);
        },
    }
}

/// The mask of a generator stays one.
proof fn lemma_generator_wf(talk: Talk, k: int, g: Generator, next: Generator, turn: GenTurn)
    requires
        g.wf(),
        g.steps(talk.replies[k], next, turn),
    ensures
        next.wf(),
{
}

/// The first token behind the prompt is sampled, and the session opens.
proof fn lemma_opens(
    talk: Talk,
    k: int,
    voice: Voice,
    config: GenerationConfig,
    chunk_frames: usize,
    s: StreamingStart,
    o: StreamingSession,
)
    requires
        0 <= k,
        s.wf(),
        open_come(talk, k, voice, config, chunk_frames, Open::Start(s)),
        s.steps(talk.replies[k], StartTurn::Session(o)),
    ensures
        idle_come(talk, k + 1, config, chunk_frames, o),
{
    reveal(open_come);
    match s.stage {
        StartStage::Prefill(p) => {},
        StartStage::Sampling(g0) => {
            let (g, t) = choose|g: Generator, t: GenTurn| #[trigger]
                g0.steps(talk.replies[k], g, t) && t is Token && s.opens(g, o);
            lemma_generator_wf(talk, k, g0, g, t);
            lemma_goes_on(talk, k, g0, g, t);
            assert(talk.count(k + 1, Task::Acoustic) == 0);
            assert forall|j: int| 0 <= j < k + 1 implies !(#[trigger] talk.asked[j] is Acoustic) by {
                lemma_count_grows(talk, j, k + 1, Task::Acoustic);
            }
        },
    }
}

/// A reply leads on before the session is open.
proof fn lemma_start(
    talk: Talk,
    k: int,
    voice: Voice,
    config: GenerationConfig,
    chunk_frames: usize,
    s: StreamingStart,
    next: StreamingStart,
)
    requires
        0 <= k,
        s.wf(),
        next.wf(),
        open_come(talk, k, voice, config, chunk_frames, Open::Start(s)),
        s.steps(talk.replies[k], StartTurn::Ask(next, talk.asked[k + 1])),
    ensures
        open_come(talk, k + 1, voice, config, chunk_frames, Open::Start(next)),
{
    reveal(open_come);
    let reply = talk.replies[k];
    let ask = talk.asked[k + 1];
    match s.stage {
        StartStage::Prefill(p) => {
            let t = choose|t: PrefillTurn| #[trigger]
                p.steps(reply, t) && match t {
                    PrefillTurn::Ask(p, a) => next == (StreamingStart {
                        stage: StartStage::Prefill(p),
                        ..s
                    }) && a == ask,
                    PrefillTurn::Ready(f) => s.begins(f, StartTurn::Ask(next, ask)),
                };
            assert(no_frames(talk, k + 1));
            lemma_prompt(talk, k, voice, p, t);
            if let PrefillTurn::Ready(f) = t {
                if let StartStage::Sampling(g) = next.stage {
                    lemma_comes(talk, k + 1, f, s.device, g);
                }
            }
        },
        StartStage::Sampling(g0) => {
            let (g, t) = choose|g: Generator, t: GenTurn| #[trigger]
                g0.steps(reply, g, t) && t == GenTurn::Ask(ask) && next == (StreamingStart {
                    stage: StartStage::Sampling(g),
                    ..s
                });
            lemma_goes_on(talk, k, g0, g, t);
        },
    }
}

/// A reply leads on in a session.
proof fn lemma_step(
    talk: Talk,
    k: int,
    voice: Voice,
    config: GenerationConfig,
    chunk_frames: usize,
    a: Open,
    b: Open,
)
    requires
        0 <= k,
        open_come(talk, k, voice, config, chunk_frames, a),
        session_leads(a, talk.replies[k], b, talk.asked[k + 1]),
    ensures
        open_come(talk, k + 1, voice, config, chunk_frames, b),
{
    reveal(session_leads);
    let reply = talk.replies[k];
    match (a, b) {
        (Open::Start(s), Open::Start(next)) => {
            lemma_start(talk, k, voice, config, chunk_frames, s, next);
        },
        (Open::Start(s), Open::Session(next)) => {
            let o = choose|o: StreamingSession| #[trigger]
                s.steps(reply, StartTurn::Session(o)) && asks_for_chunk(
                    o,
                    next,
                    talk.asked[k + 1],
                );
            lemma_opens(talk, k, voice, config, chunk_frames, s, o);
            lemma_chunk(talk, k + 1, voice, config, chunk_frames, o, next);
        },
        (Open::Session(s), Open::Session(next)) => {
            if s.waiting == Waiting::Model {
                if s.steps(reply, next, ChunkTurn::Ask(talk.asked[k + 1])) {
                    lemma_model(talk, k, voice, config, chunk_frames, s, next);
                } else {
                    let (o, chunk) = choose|o: StreamingSession, chunk: AudioBuffer| #[trigger]
                        s.steps(reply, o, ChunkTurn::Chunk(chunk)) && asks_for_chunk(
                            o,
                            next,
                            talk.asked[k + 1],
                        );
                    lemma_no_chunk(s, reply, o, chunk);
                }
            } else {
                reveal(open_come);
                assert(are_made(talk, k + 1, s.made@)) by {
                    lemma_not_made(talk, k, s.made@);
                }
                if let Some(g) = s.generator {
                    lemma_waits(talk, k, g);
                }
                if s.waiting == Waiting::Audio {
                    let (o, chunk) = choose|o: StreamingSession, chunk: AudioBuffer| #[trigger]
                        s.steps(reply, o, ChunkTurn::Chunk(chunk)) && asks_for_chunk(
                            o,
                            next,
                            talk.asked[k + 1],
                        );
                    lemma_chunk(talk, k + 1, voice, config, chunk_frames, o, next);
                }
            }
        },
        _ => {},
    }
}

/// No chunk comes while the model is waited for.
proof fn lemma_no_chunk(s: StreamingSession, reply: Reply, o: StreamingSession, chunk: AudioBuffer)
    requires
        s.waiting == Waiting::Model,
    ensures
        !s.steps(reply, o, ChunkTurn::Chunk(chunk)),
{
}

/// Each request of a session finds it waiting.
proof fn lemma_session(
    run: SessionTalk,
    text: Seq<char>,
    voice: Voice,
    config: GenerationConfig,
    chunk_frames: usize,
    k: int,
)
    requires
        run.streams(text, voice, config, chunk_frames),
        0 <= k < run.talk.asked.len(),
    ensures
        open_come(run.talk, k, voice, config, chunk_frames, run.states[k]),
    decreases k,
{
    if k == 0 {
        reveal(open_come);
    } else {
        lemma_session(run, text, voice, config, chunk_frames, k - 1);
        assert(0 <= k - 1 < run.talk.replies.len());
        let reply = run.talk.replies[k - 1];
        assert(session_leads(run.states[k - 1], reply, run.states[k], run.talk.asked[k]));
        lemma_step(
            run.talk,
            k - 1,
            voice,
            config,
            chunk_frames,
            run.states[k - 1],
            run.states[k],
        );
    }
}

/// What a streaming session asks for is told by the text, the voice and the replies so
/// far, as when the text is not streamed. What is decoded are the frames that were made
/// since the last chunk, each of them once and in order, as many as a chunk has unless no
/// frame comes behind them, and the audio of a chunk is that of its waveform.
pub proof fn law_session_talk(
    run: SessionTalk,
    text: Seq<char>,
    voice: Voice,
    config: GenerationConfig,
    chunk_frames: usize,
    k: int,
)
    requires
        run.streams(text, voice, config, chunk_frames),
        0 <= k < run.talk.asked.len(),
    ensures
        run.talk.asked[0] matches Request::Encode(t) && t@ == text,
        is_task(run.talk.asked[k], Task::Prompt) ==> runs_prompt(run.talk, k, voice),
        follows(run.talk, k, config),
        run.talk.asked[k] matches Request::NewCaches(size) ==> config.max_new_tokens + 256
            <= usize::MAX ==> size == config.max_new_tokens + 256,
        run.talk.asked[k] matches Request::Decode(t) ==> is_chunk(run.talk, k, config, chunk_frames, t),
        run.talk.asked[k] matches Request::ToAudio(waveform, rate) ==> 0 < k
            && run.talk.asked[k - 1] is Decode && run.talk.replies[k - 1] == Reply::Tensor(waveform)
            && rate == 24000,
{
    lemma_session(run, text, voice, config, chunk_frames, k);
    reveal(open_come);
}

/// A session hands out a chunk where the audio of its waveform was asked for, and the
/// chunk is that audio.
pub proof fn law_chunk_audio(
    run: SessionTalk,
    text: Seq<char>,
    voice: Voice,
    config: GenerationConfig,
    chunk_frames: usize,
    s: StreamingSession,
    reply: Reply,
    next: StreamingSession,
    chunk: AudioBuffer,
)
    requires
        run.streams(text, voice, config, chunk_frames),
        run.states.last() == Open::Session(s),
        s.steps(reply, next, ChunkTurn::Chunk(chunk)),
    ensures
        run.talk.asked.last() is ToAudio,
        reply == Reply::Audio(chunk),
{
    lemma_session(run, text, voice, config, chunk_frames, run.states.len() - 1);
    reveal(open_come);
    if s.waiting == Waiting::Model {
        lemma_no_chunk(s, reply, next, chunk);
    }
}

} // verus!
