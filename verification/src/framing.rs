//! Reassembly of frames from a byte stream.
//!
//! The sender stuffs each frame so that it holds no zero byte and ends it
//! with one zero byte, the delimiter. The reassembler collects the bytes
//! between two delimiters, up to a fixed capacity, and unstuffs them when the
//! delimiter arrives. A frame that does not fit or does not unstuff is
//! reported and dropped, and the stream goes on behind its delimiter.

use vstd::prelude::*;

verus! {

/// The capacity that is recommended for a reassembler.
pub const DEFAULT_CAPACITY: usize = 4096;

/// The frame that the stuffed bytes `encoded` unstuff to with `cobs::decode_vec`,
/// or `None` where they are malformed.
pub uninterp spec fn cobs_decoded(encoded: Seq<u8>) -> Option<Seq<u8>>;

/// Unstuffs `encoded` with `cobs::decode_vec`. Trusted: the result is the
/// one that `cobs_decoded` names, and is `None` where the crate reports an
/// error.
#[verifier::external_body]
pub(crate) fn decode_stuffed(encoded: &[u8]) -> (decoded: Option<Vec<u8>>)
    ensures
        match decoded {
            Some(frame) => cobs_decoded(encoded@) == Some(frame@),
            None => cobs_decoded(encoded@) is None,
        },
{
    match cobs::decode_vec(encoded) {
        Ok(frame) => Some(frame),
        Err(()) => None,
    }
}

/// Why the bytes before a delimiter gave no frame. Each variant holds the
/// stuffed bytes that had been kept for the frame; their number is the number
/// of bytes that were taken in before the failure.
#[derive(Debug, PartialEq, Eq)]
pub enum FramingError {
    /// The bytes are not a well-formed stuffed frame.
    Malformed(Vec<u8>),
    /// More bytes arrived than the reassembler has room for.
    Oversized(Vec<u8>),
}

/// The mathematical value of a `FramingError`.
pub enum FramingFailure {
    Malformed(Seq<u8>),
    Oversized(Seq<u8>),
}

impl FramingFailure {
    /// The bytes that had been kept for the frame.
    pub open spec fn kept(self) -> Seq<u8> {
        match self {
            FramingFailure::Malformed(kept) => kept,
            FramingFailure::Oversized(kept) => kept,
        }
    }
}

impl View for FramingError {
    type V = FramingFailure;

    open spec fn view(&self) -> FramingFailure {
        match self {
            FramingError::Malformed(kept) => FramingFailure::Malformed(kept@),
            FramingError::Oversized(kept) => FramingFailure::Oversized(kept@),
        }
    }
}

impl FramingError {
    /// The number of bytes that were taken in before the failure.
    pub fn consumed(&self) -> (count: usize)
        ensures
            count == self@.kept().len(),
    {
        match self {
            FramingError::Malformed(kept) => kept.len(),
            FramingError::Oversized(kept) => kept.len(),
        }
    }
}

/// The three states of a reassembler.
#[derive(Clone, Copy, Debug, PartialEq, Eq, Structural)]
pub enum ReassemblerState {
    /// No byte has arrived since the last delimiter.
    Idle,
    /// Bytes have arrived since the last delimiter, and they fit.
    Accumulating,
    /// More bytes have arrived since the last delimiter than fit.
    Overflowed,
}

/// Collects the bytes of a stream into frames.
#[derive(Debug)]
pub struct FrameReassembler {
    buffer: Vec<u8>,
    capacity: usize,
    overflowed: bool,
}

/// The mathematical value of a `FrameReassembler`.
pub struct ReassemblerView {
    /// The bytes kept since the last delimiter.
    pub pending: Seq<u8>,
    /// The number of bytes that one stuffed frame may have.
    pub capacity: nat,
    /// Whether bytes were dropped since the last delimiter.
    pub overflowed: bool,
}

/// What one byte may give: nothing yet, a frame, or a failure.
pub type StepOutput = Result<Option<Seq<u8>>, FramingFailure>;

/// What a delimiter ends: a frame or a failure.
pub type FrameEvent = Result<Seq<u8>, FramingFailure>;

impl ReassemblerView {
    /// The value of a reassembler that has seen nothing since the last
    /// delimiter.
    pub open spec fn idle(capacity: nat) -> ReassemblerView {
        ReassemblerView { pending: Seq::empty(), capacity, overflowed: false }
    }

    /// The state that the value is in.
    pub open spec fn state(self) -> ReassemblerState {
        if self.overflowed {
            ReassemblerState::Overflowed
        } else if self.pending.len() == 0 {
            ReassemblerState::Idle
        } else {
            ReassemblerState::Accumulating
        }
    }

    /// What holds of every reassembler: it keeps no more bytes than fit, none
    /// of them is the delimiter, and it has dropped bytes only when full.
    pub open spec fn valid(self) -> bool {
        &&& self.pending.len() <= self.capacity
        &&& forall|i: int| 0 <= i < self.pending.len() ==> self.pending[i] != 0
        &&& self.overflowed ==> self.pending.len() == self.capacity
    }
}

/// What the end of a frame gives, from the result of unstuffing the bytes
/// `kept` for it.
pub open spec fn frame_result(decoded: Option<Seq<u8>>, kept: Seq<u8>) -> StepOutput {
    match decoded {
        Some(frame) => Ok(Some(frame)),
        None => Err(FramingFailure::Malformed(kept)),
    }
}

/// The reassembler after `byte`, and what the byte gives.
///
/// A byte other than the delimiter is kept while there is room and dropped
/// otherwise. The delimiter ends the frame: after dropped bytes it gives
/// `Oversized`, after kept bytes alone the unstuffed frame or `Malformed`,
/// and directly after another delimiter nothing. A failure hands out the
/// kept bytes. After a delimiter the reassembler is idle.
pub open spec fn step(state: ReassemblerView, byte: u8) -> (ReassemblerView, StepOutput) {
    if byte != 0 {
        if state.overflowed || state.pending.len() >= state.capacity {
            (ReassemblerView { overflowed: true, ..state }, Ok(None))
        } else {
            (ReassemblerView { pending: state.pending.push(byte), ..state }, Ok(None))
        }
    } else if state.overflowed {
        (
            ReassemblerView::idle(state.capacity),
            Err(FramingFailure::Oversized(state.pending)),
        )
    } else if state.pending.len() == 0 {
        (state, Ok(None))
    } else {
        (
            ReassemblerView::idle(state.capacity),
            frame_result(cobs_decoded(state.pending), state.pending),
        )
    }
}

/// The events that one byte adds to the stream of events: none or one.
pub open spec fn emitted(output: StepOutput) -> Seq<FrameEvent> {
    match output {
        Ok(None) => Seq::empty(),
        Ok(Some(frame)) => seq![Ok(frame)],
        Err(error) => seq![Err(error)],
    }
}

/// The reassembler after the bytes of `bytes`, fed one by one, and the
/// events that they give, in the order of the stream.
pub open spec fn run(state: ReassemblerView, bytes: Seq<u8>) -> (ReassemblerView, Seq<FrameEvent>)
    decreases bytes.len(),
{
    if bytes.len() == 0 {
        (state, Seq::empty())
    } else {
        let first = step(state, bytes[0]);
        let rest = run(first.0, bytes.skip(1));
        (rest.0, emitted(first.1) + rest.1)
    }
}

/// The reassembler after the chunks of `chunks`, fed one after the other,
/// and the events that they give.
pub open spec fn run_chunks(state: ReassemblerView, chunks: Seq<Seq<u8>>) -> (
    ReassemblerView,
    Seq<FrameEvent>,
)
    decreases chunks.len(),
{
    if chunks.len() == 0 {
        (state, Seq::empty())
    } else {
        let first = run(state, chunks[0]);
        let rest = run_chunks(first.0, chunks.skip(1));
        (rest.0, first.1 + rest.1)
    }
}

/// The bytes of `chunks`, one chunk after the other.
pub open spec fn joined(chunks: Seq<Seq<u8>>) -> Seq<u8>
    decreases chunks.len(),
{
    if chunks.len() == 0 {
        Seq::empty()
    } else {
        chunks[0] + joined(chunks.skip(1))
    }
}

/// The mathematical value of what `feed` returns.
pub open spec fn output_view(result: Result<Option<Vec<u8>>, FramingError>) -> StepOutput {
    match result {
        Ok(None) => Ok(None),
        Ok(Some(frame)) => Ok(Some(frame@)),
        Err(error) => Err(error@),
    }
}

/// The mathematical value of one event that `push` returns.
pub open spec fn event_view(event: Result<Vec<u8>, FramingError>) -> FrameEvent {
    match event {
        Ok(frame) => Ok(frame@),
        Err(error) => Err(error@),
    }
}

/// The mathematical values of the events that `push` returns.
pub open spec fn event_views(events: Seq<Result<Vec<u8>, FramingError>>) -> Seq<FrameEvent> {
    Seq::new(events.len(), |i: int| event_view(events[i]))
}

/// Tells what the end of a frame gives, from the result of unstuffing the
/// bytes `kept` for it.
pub fn finish_frame(decoded: Option<Vec<u8>>, kept: Vec<u8>) -> (result: Result<
    Option<Vec<u8>>,
    FramingError,
>)
    ensures
        output_view(result) == frame_result(
            match decoded {
                Some(frame) => Some(frame@),
                None => None,
            },
            kept@,
        ),
{
    match decoded {
        Some(frame) => Ok(Some(frame)),
        None => Err(FramingError::Malformed(kept)),
    }
}

/// Only a delimiter gives a frame or a failure: no part of a frame comes out
/// before the frame is complete.
pub proof fn lemma_events_at_delimiters(state: ReassemblerView, byte: u8)
    ensures
        byte != 0 ==> step(state, byte).1 == Ok::<Option<Seq<u8>>, FramingFailure>(None),
        step(state, byte).1 matches Ok(Some(frame)) ==> byte == 0 && !state.overflowed
            && cobs_decoded(state.pending) == Some(frame),
        byte == 0 ==> step(state, byte).0 == ReassemblerView::idle(state.capacity) || (
        step(state, byte).0 == state && state.state() == ReassemblerState::Idle),
{
}

/// A valid reassembler stays valid with every byte.
pub proof fn lemma_step_valid(state: ReassemblerView, byte: u8)
    requires
        state.valid(),
    ensures
        step(state, byte).0.valid(),
        step(state, byte).0.capacity == state.capacity,
{
}

/// A valid reassembler stays valid with every stream.
pub proof fn lemma_run_valid(state: ReassemblerView, bytes: Seq<u8>)
    requires
        state.valid(),
    ensures
        run(state, bytes).0.valid(),
        run(state, bytes).0.capacity == state.capacity,
    decreases bytes.len(),
{
    if bytes.len() > 0 {
        lemma_step_valid(state, bytes[0]);
        lemma_run_valid(step(state, bytes[0]).0, bytes.skip(1));
    }
}

/// Feeding a stream in two parts gives the reassembler and the events that
/// feeding it in one part gives.
pub proof fn lemma_run_split(state: ReassemblerView, head: Seq<u8>, tail: Seq<u8>)
    ensures
        run(state, head + tail).0 == run(run(state, head).0, tail).0,
        run(state, head + tail).1 == run(state, head).1 + run(run(state, head).0, tail).1,
    decreases head.len(),
{
    if head.len() == 0 {
        assert(head + tail == tail);
        assert(Seq::<FrameEvent>::empty() + run(state, tail).1 == run(state, tail).1);
    } else {
        let whole = head + tail;
        assert(whole[0] == head[0]);
        assert(whole.skip(1) == head.skip(1) + tail);
        let first = step(state, head[0]);
        lemma_run_split(first.0, head.skip(1), tail);
        let middle = run(first.0, head.skip(1));
        let last = run(middle.0, tail);
        assert(emitted(first.1) + (middle.1 + last.1) == (emitted(first.1) + middle.1) + last.1);
    }
}

/// However a stream is cut into chunks, feeding the chunks gives the
/// reassembler and the events that feeding the stream in one piece gives.
pub proof fn lemma_chunking(state: ReassemblerView, chunks: Seq<Seq<u8>>)
    ensures
        run_chunks(state, chunks) == run(state, joined(chunks)),
    decreases chunks.len(),
{
    if chunks.len() > 0 {
        lemma_run_split(state, chunks[0], joined(chunks.skip(1)));
        lemma_chunking(run(state, chunks[0]).0, chunks.skip(1));
    }
}

/// Two ways of cutting one stream into chunks give the same reassembler and
/// the same events.
pub proof fn lemma_chunking_immaterial(
    state: ReassemblerView,
    one: Seq<Seq<u8>>,
    other: Seq<Seq<u8>>,
)
    requires
        joined(one) == joined(other),
    ensures
        run_chunks(state, one) == run_chunks(state, other),
{
    lemma_chunking(state, one);
    lemma_chunking(state, other);
}

/// The stream `bytes` cut into chunks of one byte each.
pub open spec fn bytewise(bytes: Seq<u8>) -> Seq<Seq<u8>> {
    Seq::new(bytes.len(), |i: int| seq![bytes[i]])
}

/// Feeding a stream byte by byte gives what feeding it as one chunk gives.
pub proof fn lemma_bytewise(state: ReassemblerView, bytes: Seq<u8>)
    ensures
        joined(bytewise(bytes)) == bytes,
        run_chunks(state, bytewise(bytes)) == run_chunks(state, seq![bytes]),
    decreases bytes.len(),
{
    lemma_joined_bytewise(bytes);
    assert(joined(seq![bytes]) == bytes) by {
        assert(seq![bytes].skip(1) == Seq::<Seq<u8>>::empty());
        assert(joined(seq![bytes].skip(1)) == Seq::<u8>::empty());
        assert(bytes + Seq::<u8>::empty() == bytes);
    }
    lemma_chunking_immaterial(state, bytewise(bytes), seq![bytes]);
}

proof fn lemma_joined_bytewise(bytes: Seq<u8>)
    ensures
        joined(bytewise(bytes)) == bytes,
    decreases bytes.len(),
{
    if bytes.len() > 0 {
        assert(bytewise(bytes).skip(1) == bytewise(bytes.skip(1)));
        lemma_joined_bytewise(bytes.skip(1));
        assert(seq![bytes[0]] + bytes.skip(1) == bytes);
    }
}

/// Whether `bytes` holds no delimiter.
pub open spec fn undelimited(bytes: Seq<u8>) -> bool {
    forall|i: int| 0 <= i < bytes.len() ==> bytes[i] != 0
}

/// The reassembler after bytes that hold no delimiter: it has kept those
/// for which it had room, and has overflowed if it lacked room for one.
pub open spec fn collected(state: ReassemblerView, bytes: Seq<u8>) -> ReassemblerView {
    if state.overflowed || state.pending.len() + bytes.len() > state.capacity {
        ReassemblerView {
            pending: if bytes.len() == 0 {
                state.pending
            } else {
                (state.pending + bytes).take(state.capacity as int)
            },
            overflowed: state.overflowed || bytes.len() > 0,
            ..state
        }
    } else {
        ReassemblerView { pending: state.pending + bytes, ..state }
    }
}

/// Bytes that hold no delimiter give no event, and leave the reassembler
/// with those of them that fit.
pub proof fn lemma_run_undelimited(state: ReassemblerView, bytes: Seq<u8>)
    requires
        state.valid(),
        undelimited(bytes),
    ensures
        run(state, bytes).0 == collected(state, bytes),
        run(state, bytes).1 == Seq::<FrameEvent>::empty(),
    decreases bytes.len(),
{
    if bytes.len() == 0 {
        assert(state.pending + bytes == state.pending);
    } else {
        let next = step(state, bytes[0]).0;
        let rest = bytes.skip(1);
        assert(undelimited(rest)) by {
            assert forall|i: int| 0 <= i < rest.len() implies rest[i] != 0 by {
                assert(rest[i] == bytes[i + 1]);
            }
        }
        lemma_step_valid(state, bytes[0]);
        lemma_run_undelimited(next, rest);
        assert(Seq::<FrameEvent>::empty() + Seq::<FrameEvent>::empty() == Seq::<
            FrameEvent,
        >::empty());
        if state.overflowed || state.pending.len() >= state.capacity {
            assert((state.pending + bytes).take(state.capacity as int) == state.pending);
            if rest.len() > 0 {
                assert((state.pending + rest).take(state.capacity as int) == state.pending);
            }
        } else {
            assert(state.pending.push(bytes[0]) + rest == state.pending + bytes);
        }
    }
}

/// One byte gives the reassembler and the event of its step.
pub proof fn lemma_run_one(state: ReassemblerView, byte: u8)
    ensures
        run(state, seq![byte]) == (step(state, byte).0, emitted(step(state, byte).1)),
{
    let bytes = seq![byte];
    let first = step(state, bytes[0]);
    assert(bytes.skip(1).len() == 0);
    assert(run(first.0, bytes.skip(1)) == (first.0, Seq::<FrameEvent>::empty()));
    assert(emitted(first.1) + Seq::<FrameEvent>::empty() == emitted(first.1));
}

/// A frame of more bytes than fit gives one failure at its delimiter,
/// `Oversized` with the bytes that fitted, and leaves the reassembler idle.
pub proof fn lemma_oversized_frame(capacity: usize, oversized: Seq<u8>)
    requires
        undelimited(oversized),
        oversized.len() > capacity,
    ensures
        run(ReassemblerView::idle(capacity as nat), oversized.push(0)) == (
            ReassemblerView::idle(capacity as nat),
            seq![
                Err::<Seq<u8>, FramingFailure>(
                    FramingFailure::Oversized(oversized.take(capacity as int)),
                ),
            ],
        ),
{
    let idle = ReassemblerView::idle(capacity as nat);
    let full = run(idle, oversized).0;
    lemma_run_undelimited(idle, oversized);
    lemma_run_split(idle, oversized, seq![0u8]);
    assert(oversized.push(0) == oversized + seq![0u8]);
    lemma_run_one(full, 0u8);
    let event: FrameEvent = Err(FramingFailure::Oversized(oversized.take(capacity as int)));
    assert(idle.pending + oversized == oversized);
    assert(Seq::<FrameEvent>::empty() + seq![event] == seq![event]);
}

/// A frame that fits gives one event at its delimiter, the unstuffed frame
/// or `Malformed`, and leaves the reassembler idle.
pub proof fn lemma_fitting_frame(capacity: usize, stuffed: Seq<u8>)
    requires
        undelimited(stuffed),
        0 < stuffed.len() <= capacity,
    ensures
        run(ReassemblerView::idle(capacity as nat), stuffed.push(0)) == (
            ReassemblerView::idle(capacity as nat),
            emitted(frame_result(cobs_decoded(stuffed), stuffed)),
        ),
{
    let idle = ReassemblerView::idle(capacity as nat);
    let full = run(idle, stuffed).0;
    lemma_run_undelimited(idle, stuffed);
    lemma_run_split(idle, stuffed, seq![0u8]);
    assert(stuffed.push(0) == stuffed + seq![0u8]);
    lemma_run_one(full, 0u8);
    assert(idle.pending + stuffed == stuffed);
    let events = emitted(frame_result(cobs_decoded(stuffed), stuffed));
    assert(Seq::<FrameEvent>::empty() + events == events);
}

/// The stream of `frames`: each stuffed frame with the delimiter behind it.
pub open spec fn delimited(frames: Seq<Seq<u8>>) -> Seq<u8>
    decreases frames.len(),
{
    if frames.len() == 0 {
        Seq::empty()
    } else {
        frames[0].push(0) + delimited(frames.skip(1))
    }
}

/// The events of `frames`, one for each stuffed frame and in their order:
/// the unstuffed frame, or `Malformed`.
pub open spec fn events_of(frames: Seq<Seq<u8>>) -> Seq<FrameEvent>
    decreases frames.len(),
{
    if frames.len() == 0 {
        Seq::empty()
    } else {
        emitted(frame_result(cobs_decoded(frames[0]), frames[0])) + events_of(frames.skip(1))
    }
}

/// Frames come out in the order in which they arrive: a stream of stuffed
/// frames that fit gives one event for each frame, in the order of the
/// stream, and leaves the reassembler idle.
pub proof fn lemma_frames_in_order(capacity: usize, frames: Seq<Seq<u8>>)
    requires
        forall|i: int|
            0 <= i < frames.len() ==> undelimited(#[trigger] frames[i]) && 0 < frames[i].len()
                <= capacity,
    ensures
        run(ReassemblerView::idle(capacity as nat), delimited(frames)) == (
            ReassemblerView::idle(capacity as nat),
            events_of(frames),
        ),
    decreases frames.len(),
{
    if frames.len() > 0 {
        let idle = ReassemblerView::idle(capacity as nat);
        let rest = frames.skip(1);
        assert(undelimited(frames[0]) && 0 < frames[0].len() <= capacity);
        assert forall|i: int| 0 <= i < rest.len() implies undelimited(#[trigger] rest[i]) && 0
            < rest[i].len() <= capacity by {
            assert(rest[i] == frames[i + 1]);
        }
        lemma_fitting_frame(capacity, frames[0]);
        lemma_frames_in_order(capacity, rest);
        lemma_run_split(idle, frames[0].push(0), delimited(rest));
    }
}

/// After a frame of more bytes than fit, the stream goes on as if it had
/// started behind the delimiter of that frame: the failure is the one event
/// of the oversized frame, and the frame that follows is unstuffed as it is
/// by an idle reassembler.
pub proof fn lemma_recovers_after_oversized(capacity: usize, oversized: Seq<u8>, next: Seq<u8>)
    requires
        undelimited(oversized),
        oversized.len() > capacity,
    ensures
        run(ReassemblerView::idle(capacity as nat), oversized.push(0) + next).0 == run(
            ReassemblerView::idle(capacity as nat),
            next,
        ).0,
        run(ReassemblerView::idle(capacity as nat), oversized.push(0) + next).1 == seq![
            Err::<Seq<u8>, FramingFailure>(
                FramingFailure::Oversized(oversized.take(capacity as int)),
            ),
        ] + run(ReassemblerView::idle(capacity as nat), next).1,
{
    lemma_oversized_frame(capacity, oversized);
    lemma_run_split(ReassemblerView::idle(capacity as nat), oversized.push(0), next);
}

impl View for FrameReassembler {
    type V = ReassemblerView;

    closed spec fn view(&self) -> ReassemblerView {
        ReassemblerView {
            pending: self.buffer@,
            capacity: self.capacity as nat,
            overflowed: self.overflowed,
        }
    }
}

impl FrameReassembler {
    /// A reassembler for stuffed frames of up to `capacity` bytes, the
    /// delimiter not counted.
    pub fn new(capacity: usize) -> (reassembler: FrameReassembler)
        ensures
            reassembler@ == ReassemblerView::idle(capacity as nat),
    {
        FrameReassembler { buffer: Vec::new(), capacity, overflowed: false }
    }

    /// The state that the reassembler is in.
    pub fn state(&self) -> (state: ReassemblerState)
        ensures
            state == self@.state(),
    {
        if self.overflowed {
            ReassemblerState::Overflowed
        } else if self.buffer.len() == 0 {
            ReassemblerState::Idle
        } else {
            ReassemblerState::Accumulating
        }
    }

    /// Takes the next byte of the stream. Gives the frame that the byte
    /// completes, the failure that it completes, or `None` where the byte
    /// completes nothing.
    pub fn feed(&mut self, byte: u8) -> (result: Result<Option<Vec<u8>>, FramingError>)
        ensures
            final(self)@ == step(old(self)@, byte).0,
            output_view(result) == step(old(self)@, byte).1,
    {
        if byte != 0 {
            if self.overflowed || self.buffer.len() >= self.capacity {
                self.overflowed = true;
            } else {
                self.buffer.push(byte);
            }
            Ok(None)
        } else if self.overflowed {
            let mut kept: Vec<u8> = Vec::new();
            core::mem::swap(&mut self.buffer, &mut kept);
            self.overflowed = false;
            Err(FramingError::Oversized(kept))
        } else if self.buffer.len() == 0 {
            Ok(None)
        } else {
            let mut kept: Vec<u8> = Vec::new();
            core::mem::swap(&mut self.buffer, &mut kept);
            let decoded = decode_stuffed(kept.as_slice());
            finish_frame(decoded, kept)
        }
    }

    /// Takes the next bytes of the stream. Gives the frames and failures that
    /// they complete, in the order of the stream.
    pub fn push(&mut self, data: &[u8]) -> (events: Vec<Result<Vec<u8>, FramingError>>)
        ensures
            final(self)@ == run(old(self)@, data@).0,
            event_views(events@) == run(old(self)@, data@).1,
    {
        let mut events: Vec<Result<Vec<u8>, FramingError>> = Vec::new();
        let mut at: usize = 0;
        proof {
            assert(data@.skip(0) == data@);
            assert(event_views(events@) + run(self@, data@).1 == run(self@, data@).1);
        }
        while at < data.len()
            invariant
                at <= data@.len(),
                run(old(self)@, data@).0 == run(self@, data@.skip(at as int)).0,
                run(old(self)@, data@).1 == event_views(events@) + run(
                    self@,
                    data@.skip(at as int),
                ).1,
            decreases data@.len() - at,
        {
            let ghost before = self@;
            let ghost seen = event_views(events@);
            let ghost rest = data@.skip(at as int);
            assert(rest.skip(1) == data@.skip(at + 1));
            assert(rest[0] == data@[at as int]);
            match self.feed(data[at]) {
                Ok(None) => {
                    assert(seen + (emitted(step(before, rest[0]).1) + run(self@, rest.skip(1)).1)
                        == seen + run(self@, rest.skip(1)).1);
                },
                Ok(Some(frame)) => {
                    let ghost event: FrameEvent = Ok(frame@);
                    events.push(Ok(frame));
                    assert(event_views(events@) == seen.push(event));
                    assert(seen + (seq![event] + run(self@, rest.skip(1)).1) == seen.push(event)
                        + run(self@, rest.skip(1)).1);
                },
                Err(error) => {
                    let ghost event: FrameEvent = Err(error@);
                    events.push(Err(error));
                    assert(event_views(events@) == seen.push(event));
                    assert(seen + (seq![event] + run(self@, rest.skip(1)).1) == seen.push(event)
                        + run(self@, rest.skip(1)).1);
                },
            }
            at += 1;
        }
        assert(event_views(events@) + Seq::<FrameEvent>::empty() == event_views(events@));
        events
    }
}

} // verus!
