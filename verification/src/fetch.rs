//! Resumable segment fetching. The session is a state machine from
//! transport events to the next transport action: received bytes
//! accumulate, and a dropped connection asks for a byte-range continuation
//! from the exact offset already received, so an interrupted transfer
//! yields the same bytes as an uninterrupted one. The transport itself —
//! connecting, reading, re-requesting — lives outside the library, which
//! only decides.

use vstd::prelude::*;

verus! {

/// One transport event observed while a segment's bytes arrive.
#[derive(Debug)]
pub enum FetchEvent {
    /// More body bytes arrived.
    Chunk(Vec<u8>),
    /// The connection dropped mid-stream.
    Dropped,
    /// The transport reports the body complete.
    Finished,
}

/// The mirror of a `FetchEvent`.
#[verifier::ext_equal]
pub enum FetchEventV {
    Chunk(Seq<u8>),
    Dropped,
    Finished,
}

impl View for FetchEvent {
    type V = FetchEventV;

    open spec fn view(&self) -> FetchEventV {
        match self {
            FetchEvent::Chunk(c) => FetchEventV::Chunk(c@),
            FetchEvent::Dropped => FetchEventV::Dropped,
            FetchEvent::Finished => FetchEventV::Finished,
        }
    }
}

/// What the fetcher asks its transport to do next.
#[derive(Debug, PartialEq, Eq, Structural, Clone, Copy)]
pub enum FetchAction {
    /// Keep reading from the open connection.
    Read,
    /// Reconnect and request the body starting at byte `from`.
    Resume { from: usize },
    /// The transfer is complete.
    Done,
}

/// One segment transfer in progress: the address being fetched and every
/// byte received so far, in order.
#[derive(Debug)]
pub struct FetchSession {
    url: String,
    data: Vec<u8>,
}

impl FetchSession {
    /// The bytes received so far.
    pub closed spec fn received(self) -> Seq<u8> {
        self.data@
    }

    /// The address being fetched.
    pub closed spec fn address(self) -> Seq<char> {
        self.url@
    }

    /// Begin a transfer of `url` with nothing received.
    pub fn start(url: String) -> (s: FetchSession)
        ensures
            s.address() == url@,
            s.received() == Seq::<u8>::empty(),
    {
        FetchSession { url, data: Vec::new() }
    }

    /// React to one transport event. A chunk is appended to the received
    /// bytes and reading continues; a drop leaves the bytes untouched and
    /// asks for a resumed request from the exact offset received; the end
    /// of the body completes the transfer.
    pub fn on_event(&mut self, ev: FetchEvent) -> (a: FetchAction)
        ensures
            final(self).address() == old(self).address(),
            (ev@ matches FetchEventV::Chunk(c) ==> final(self).received() == old(self).received()
                + c && a == FetchAction::Read),
            ev@ is Dropped ==> final(self).received() == old(self).received() && a
                == (FetchAction::Resume { from: old(self).received().len() as usize }),
            ev@ is Finished ==> final(self).received() == old(self).received() && a
                == FetchAction::Done,
    {
        match ev {
            FetchEvent::Chunk(c) => {
                let mut c = c;
                self.data.append(&mut c);
                FetchAction::Read
            },
            FetchEvent::Dropped => FetchAction::Resume { from: self.data.len() },
            FetchEvent::Finished => FetchAction::Done,
        }
    }

    /// Surrender the received bytes of a completed transfer.
    pub fn into_bytes(self) -> (b: Vec<u8>)
        ensures
            b@ == self.received(),
    {
        self.data
    }
}

/// The bytes an event sequence carries, in arrival order.
pub open spec fn delivered(evs: Seq<FetchEventV>) -> Seq<u8>
    decreases evs.len(),
{
    if evs.len() == 0 {
        Seq::empty()
    } else {
        match evs.first() {
            FetchEventV::Chunk(c) => c + delivered(evs.drop_first()),
            _ => delivered(evs.drop_first()),
        }
    }
}

/// A transport serving a fixed `body` from offset `from` produces exactly
/// such event sequences: every chunk is the body's next bytes at the
/// current offset, and after a drop the resumed connection continues at
/// that same offset — the byte-range continuation `on_event` asks for.
pub open spec fn serves(evs: Seq<FetchEventV>, body: Seq<u8>, from: int) -> bool
    decreases evs.len(),
{
    if evs.len() == 0 {
        true
    } else {
        match evs.first() {
            FetchEventV::Chunk(c) => from + c.len() <= body.len() && c == body.subrange(
                from,
                from + c.len(),
            ) && serves(evs.drop_first(), body, from + c.len()),
            FetchEventV::Dropped => serves(evs.drop_first(), body, from),
            FetchEventV::Finished => serves(evs.drop_first(), body, from),
        }
    }
}

/// Bytes served from offset `from` extend the body's prefix: the delivered
/// bytes are exactly the body's next `delivered(evs).len()` bytes.
pub proof fn lemma_serves_prefix(evs: Seq<FetchEventV>, body: Seq<u8>, from: int)
    requires
        0 <= from <= body.len(),
        serves(evs, body, from),
    ensures
        from + delivered(evs).len() <= body.len(),
        delivered(evs) == body.subrange(from, from + delivered(evs).len() as int),
    decreases evs.len(),
{
    if evs.len() > 0 {
        match evs.first() {
            FetchEventV::Chunk(c) => {
                lemma_serves_prefix(evs.drop_first(), body, from + c.len());
                assert(delivered(evs) =~= body.subrange(
                    from,
                    from + delivered(evs).len() as int,
                ));
            },
            FetchEventV::Dropped => {
                lemma_serves_prefix(evs.drop_first(), body, from);
            },
            FetchEventV::Finished => {
                lemma_serves_prefix(evs.drop_first(), body, from);
            },
        }
    } else {
        assert(delivered(evs) =~= body.subrange(from, from));
    }
}

/// Resumability: a transfer interrupted by any number of connection drops,
/// each resumed from the last received byte, delivers bytes identical to
/// the body — and therefore identical to an uninterrupted transfer of the
/// same body, byte for byte.
pub proof fn lemma_resume_byte_identical(evs: Seq<FetchEventV>, body: Seq<u8>)
    requires
        serves(evs, body, 0),
        delivered(evs).len() == body.len(),
    ensures
        delivered(evs) == body,
{
    lemma_serves_prefix(evs, body, 0);
    assert(body.subrange(0, body.len() as int) =~= body);
}

} // verus!
