//! The decrypting byte stream: a pull-based cursor over deadline-bound
//! reads of the decrypted content body.
//!
//! The caller performs each read (with its per-chunk deadline) and
//! hands the outcome in as a plain event; the cursor decides what the
//! stream emits.  A stalled read terminates the stream at once rather
//! than blocking the response; a hard read error signals one final
//! error frame and then terminates.

use vstd::prelude::*;

verus! {

use crate::errors::AudioError;
use crate::resolver::ResolvedTrack;

/// Read-ahead buffering for smooth streaming, in bytes.
pub const STREAM_BUFFER_BYTES: u64 = 512000;

/// Size of one read from the decrypted reader, in bytes.
pub const STREAM_CHUNK_BYTES: u64 = 10240;

/// Deadline for one chunk read; a read that misses it counts as a
/// stall and ends the stream.
pub const CHUNK_DEADLINE_MILLIS: u64 = 100;

/// Instructions for opening the content body of a resolved track.
#[derive(Clone, Copy, Debug, PartialEq, Eq, Structural)]
pub struct OpenPlan {
    /// Read-ahead buffer handed to the content loader.
    pub buffer_bytes: u64,
    /// Switch the loader into sequential-streaming mode immediately.
    pub sequential: bool,
    /// Seek past the container header before the first read.
    pub initial_seek: u64,
}

/// How to open a resolved track: fixed buffering, sequential mode, and
/// a first seek past the format's container header.
pub fn open_plan(track: &ResolvedTrack) -> (p: OpenPlan)
    ensures
        p.buffer_bytes == STREAM_BUFFER_BYTES,
        p.sequential,
        p.initial_seek == track.container_header_len,
{
    OpenPlan {
        buffer_bytes: STREAM_BUFFER_BYTES,
        sequential: true,
        initial_seek: track.container_header_len,
    }
}

/// Step of the open sequence that failed before streaming began.
#[derive(Clone, Copy, Debug, PartialEq, Eq, Structural)]
pub enum OpenFailure {
    /// The content-decryption key request failed.
    KeyRequest,
    /// The content body could not be opened.
    ContentOpen,
    /// Seeking past the container header failed.
    HeaderSeek,
}

/// Reason class reported for a failure of the open sequence: a key
/// failure is its own class, the rest are read failures.
pub fn open_failure_error(f: OpenFailure) -> (e: AudioError)
    ensures
        e == (if (f matches OpenFailure::KeyRequest) {
            AudioError::KeyError
        } else {
            AudioError::ReadFailure
        }),
{
    match f {
        OpenFailure::KeyRequest => AudioError::KeyError,
        OpenFailure::ContentOpen => AudioError::ReadFailure,
        OpenFailure::HeaderSeek => AudioError::ReadFailure,
    }
}

/// Outcome of one deadline-bound read of the decrypted reader.
#[derive(Debug)]
pub enum ReadEvent {
    /// The read returned these bytes; empty means clean end of file.
    Data(Vec<u8>),
    /// The read failed outright.
    Failed,
    /// The read did not complete before the chunk deadline.
    DeadlineExpired,
}

/// What the stream emits in response to one read outcome.
#[derive(Debug)]
pub enum StreamStep {
    /// Hand this chunk to the consumer and read again.
    Yield(Vec<u8>),
    /// Signal one final error to the consumer; the stream is over.
    ErrorFrame,
    /// The stream is over; nothing further is emitted.
    End,
}

/// Phase of one stream cursor.
#[derive(Clone, Copy, Debug, PartialEq, Eq, Structural)]
pub enum StreamPhase {
    /// Reads are still being consumed.
    Streaming,
    /// A terminal event was seen; the cursor emits nothing further.
    Ended,
}

/// Whether an event carries bytes to deliver.
pub open spec fn spec_is_data(ev: ReadEvent) -> bool {
    ev matches ReadEvent::Data(c) && c@.len() > 0
}

/// The chunks a stream delivers for a schedule of read outcomes: the
/// longest prefix of non-empty reads; the first other event, if any,
/// ends the stream.
pub open spec fn spec_chunks(events: Seq<ReadEvent>) -> Seq<Seq<u8>>
    decreases events.len(),
{
    if events.len() == 0 {
        Seq::empty()
    } else if spec_is_data(events[0]) {
        seq![events[0]->Data_0@] + spec_chunks(events.drop_first())
    } else {
        Seq::empty()
    }
}

/// Index of the first terminal event of a schedule (`events.len()` if
/// every event carries data).
pub open spec fn spec_first_break(events: Seq<ReadEvent>) -> int
    decreases events.len(),
{
    if events.len() == 0 {
        0
    } else if spec_is_data(events[0]) {
        1 + spec_first_break(events.drop_first())
    } else {
        0
    }
}

/// One live stream, owned by a single response.
pub struct StreamCursor {
    /// Whether the stream still consumes reads.
    pub phase: StreamPhase,
    /// The stream ended because a read missed its deadline.
    pub stalled: bool,
    /// The stream ended because a read failed; one error frame was
    /// emitted first.
    pub failed: bool,
    /// Every byte handed to the consumer, in order.
    pub delivered: Ghost<Seq<u8>>,
}

impl StreamCursor {
    /// A cursor ready to stream.
    pub fn new() -> (c: StreamCursor)
        ensures
            c.phase == StreamPhase::Streaming,
            !c.stalled,
            !c.failed,
            c.delivered@ =~= Seq::<u8>::empty(),
    {
        StreamCursor {
            phase: StreamPhase::Streaming,
            stalled: false,
            failed: false,
            delivered: Ghost(Seq::empty()),
        }
    }

    /// Feed one read outcome to the cursor and learn what the stream
    /// emits: a non-empty read is yielded and streaming continues; an
    /// empty read ends the stream cleanly; a failed read emits one
    /// error frame and ends it; a read that missed its deadline ends
    /// it at once, with nothing emitted after the point of truncation.
    pub fn advance(&mut self, ev: ReadEvent) -> (step: StreamStep)
        requires
            old(self).phase == StreamPhase::Streaming,
        ensures
            spec_is_data(ev) ==> (step matches StreamStep::Yield(c) && c@ == ev->Data_0@
                && final(self).phase == StreamPhase::Streaming
                && final(self).delivered@ == old(self).delivered@ + ev->Data_0@),
            !spec_is_data(ev) ==> final(self).phase == StreamPhase::Ended
                && final(self).delivered@ == old(self).delivered@,
            ev matches ReadEvent::Data(c) && c@.len() == 0 ==> step matches StreamStep::End,
            ev matches ReadEvent::Failed ==> step matches StreamStep::ErrorFrame,
            ev matches ReadEvent::DeadlineExpired ==> step matches StreamStep::End,
            final(self).stalled == (old(self).stalled || ev matches ReadEvent::DeadlineExpired),
            final(self).failed == (old(self).failed || ev matches ReadEvent::Failed),
    {
        match ev {
            ReadEvent::Data(chunk) => {
                if chunk.len() == 0 {
                    self.phase = StreamPhase::Ended;
                    StreamStep::End
                } else {
                    proof {
                        self.delivered@ = self.delivered@ + chunk@;
                    }
                    StreamStep::Yield(chunk)
                }
            },
            ReadEvent::Failed => {
                self.phase = StreamPhase::Ended;
                self.failed = true;
                StreamStep::ErrorFrame
            },
            ReadEvent::DeadlineExpired => {
                self.phase = StreamPhase::Ended;
                self.stalled = true;
                StreamStep::End
            },
        }
    }
}

proof fn lemma_first_break_at(events: Seq<ReadEvent>, i: int)
    requires
        0 <= i <= events.len(),
        forall|j: int| 0 <= j < i ==> spec_is_data(#[trigger] events[j]),
        i < events.len() ==> !spec_is_data(events[i]),
    ensures
        i < events.len() ==> spec_first_break(events) == i,
        i == events.len() ==> spec_first_break(events) == events.len(),
    decreases i,
{
    if i > 0 {
        lemma_first_break_at(events.drop_first(), i - 1);
    }
}

/// Drive one cursor over a whole schedule of read outcomes and collect
/// what the stream emits.  The cursor stops consuming at the first
/// terminal event; at most one error frame is ever emitted, and a
/// stall truncates the stream silently: the consumer observes the end
/// as the stream's very response to the stalled read.
pub fn run_schedule(events: Vec<ReadEvent>) -> (out: (Vec<Vec<u8>>, StreamCursor))
    ensures
        out.0.deep_view() == spec_chunks(events@),
        out.1.phase == StreamPhase::Ended <==> spec_first_break(events@) < events@.len(),
        out.1.phase == StreamPhase::Streaming ==> !out.1.stalled && !out.1.failed,
        spec_first_break(events@) < events@.len() ==> (out.1.stalled == (events@[spec_first_break(
            events@,
        )] matches ReadEvent::DeadlineExpired) && out.1.failed == (events@[spec_first_break(
            events@,
        )] matches ReadEvent::Failed)),
{
    let mut cursor = StreamCursor::new();
    let mut chunks: Vec<Vec<u8>> = Vec::new();
    let mut rest = events;
    let ghost all = rest@;
    let ghost mut i: int = 0;
    proof {
        assert(all.skip(0) =~= all);
        assert(chunks.deep_view() + spec_chunks(all) =~~= spec_chunks(all));
    }
    while cursor.phase == StreamPhase::Streaming && rest.len() > 0
        invariant
            0 <= i <= all.len(),
            rest@ == all.skip(i),
            cursor.phase == StreamPhase::Streaming ==> forall|j: int|
                0 <= j < i ==> spec_is_data(#[trigger] all[j]),
            cursor.phase == StreamPhase::Streaming ==> (!cursor.stalled && !cursor.failed
                && chunks.deep_view() + spec_chunks(all.skip(i)) == spec_chunks(all)),
            cursor.phase == StreamPhase::Ended ==> (i - 1 == spec_first_break(all) && i - 1
                < all.len() && chunks.deep_view() == spec_chunks(all) && cursor.stalled == (all[i
                - 1] matches ReadEvent::DeadlineExpired) && cursor.failed == (all[i - 1] matches
            ReadEvent::Failed)),
        decreases rest@.len(),
    {
        let ev = rest.remove(0);
        proof {
            assert(all.skip(i)[0] == all[i]);
            assert(all.skip(i).drop_first() =~= all.skip(i + 1));
        }
        let ghost pre_chunks = chunks.deep_view();
        match cursor.advance(ev) {
            StreamStep::Yield(c) => {
                chunks.push(c);
                proof {
                    assert(spec_is_data(all[i]));
                    assert(spec_chunks(all.skip(i)) =~~= seq![all[i]->Data_0@] + spec_chunks(
                        all.skip(i + 1),
                    ));
                    assert(chunks.deep_view() =~~= pre_chunks + seq![all[i]->Data_0@]);
                    assert(chunks.deep_view() + spec_chunks(all.skip(i + 1)) =~~= spec_chunks(all));
                }
            },
            StreamStep::ErrorFrame => {
                proof {
                    assert(!spec_is_data(all[i]));
                    lemma_first_break_at(all, i);
                    assert(spec_chunks(all.skip(i)) =~~= Seq::<Seq<u8>>::empty());
                    assert(chunks.deep_view() =~~= spec_chunks(all));
                }
            },
            StreamStep::End => {
                proof {
                    assert(!spec_is_data(all[i]));
                    lemma_first_break_at(all, i);
                    assert(spec_chunks(all.skip(i)) =~~= Seq::<Seq<u8>>::empty());
                    assert(chunks.deep_view() =~~= spec_chunks(all));
                }
            },
        }
        proof {
            i = i + 1;
        }
    }
    proof {
        if cursor.phase == StreamPhase::Streaming {
            assert(i == all.len());
            lemma_first_break_at(all, i);
            assert(all.skip(i) =~= Seq::<ReadEvent>::empty());
            assert(chunks.deep_view() =~~= spec_chunks(all));
        }
    }
    (chunks, cursor)
}

} // verus!
