//! The wire protocol: the client opens a connection with one selector byte
//! naming the test, and the server then echoes (ping), streams data to the
//! client (download) or drains what the client sends (upload). The server's
//! handling of a connection is a state machine; the caller performs the
//! socket operations that its actions name and reports how they went.

use vstd::prelude::*;

verus! {

/// The size of the server's transfer buffer: the block that the download
/// test sends and the upload test reads at a time, and, after the selector
/// byte, the most that one echo carries.
pub const SERVER_BLOCK_LEN: usize = 65536;

/// The tests a client can ask for.
#[derive(Clone, Copy, Debug, PartialEq, Eq, Structural)]
pub enum TestKind {
    Ping,
    Download,
    Upload,
}

/// The selector byte that names a test on the wire.
pub open spec fn selector_of(kind: TestKind) -> u8 {
    match kind {
        TestKind::Ping => 0,
        TestKind::Download => 1,
        TestKind::Upload => 2,
    }
}

/// The test a selector byte names, if any.
pub open spec fn kind_of(selector: u8) -> Option<TestKind> {
    if selector == 0 {
        Some(TestKind::Ping)
    } else if selector == 1 {
        Some(TestKind::Download)
    } else if selector == 2 {
        Some(TestKind::Upload)
    } else {
        None
    }
}

impl TestKind {
    /// The selector byte that opens a connection for this test.
    pub fn selector(self) -> (b: u8)
        ensures
            b == selector_of(self),
    {
        match self {
            TestKind::Ping => 0,
            TestKind::Download => 1,
            TestKind::Upload => 2,
        }
    }

    /// The test that a selector byte names; `None` for an unknown one.
    pub fn from_selector(b: u8) -> (k: Option<TestKind>)
        ensures
            k == kind_of(b),
    {
        if b == 0 {
            Some(TestKind::Ping)
        } else if b == 1 {
            Some(TestKind::Download)
        } else if b == 2 {
            Some(TestKind::Upload)
        } else {
            None
        }
    }
}

/// Every test has its own selector, and it names that test back; no other
/// byte names a test.
pub proof fn lemma_selector_round_trip(kind: TestKind, b: u8)
    ensures
        kind_of(selector_of(kind)) == Some(kind),
        kind_of(b) matches Some(k) ==> selector_of(k) == b,
        kind_of(b) is None <==> b > 2,
{
}

/// Where the server stands on a connection.
#[derive(Clone, Copy, Debug, PartialEq, Eq, Structural)]
pub enum ServerState {
    /// Waiting for the selector byte.
    AwaitSelector,
    /// Ping: echoing what the client sends.
    Echo,
    /// Download: sending blocks until the client goes away.
    Stream,
    /// Upload: reading blocks until the client goes away.
    Drain,
    /// The connection is done.
    Closed,
}

/// What became of the last action.
#[derive(Clone, Copy, Debug, PartialEq, Eq, Structural)]
pub enum ServerEvent {
    /// The selector byte was read.
    Selector(u8),
    /// A read returned this many bytes (0: the client closed its side).
    Read(usize),
    /// A write (and flush) completed.
    Written,
    /// The socket operation failed.
    Failed,
}

/// The socket operation to perform next.
#[derive(Clone, Copy, Debug, PartialEq, Eq, Structural)]
pub enum ServerAction {
    /// Read exactly one byte: the selector.
    ReadSelector,
    /// Read what is available into the echo buffer.
    ReadChunk,
    /// Write back the `n` bytes just read, then flush.
    WriteBack(usize),
    /// Write one whole block.
    WriteBlock,
    /// Read exactly one whole block.
    ReadBlock,
    /// Close the connection normally.
    Finish,
    /// Close the connection and report the failure.
    Fail,
}

/// The transition of the server's state machine.
pub open spec fn server_next(state: ServerState, event: ServerEvent) -> (ServerState, ServerAction) {
    match state {
        ServerState::AwaitSelector => match event {
            ServerEvent::Selector(b) => if b == 0 {
                (ServerState::Echo, ServerAction::ReadChunk)
            } else if b == 1 {
                (ServerState::Stream, ServerAction::WriteBlock)
            } else if b == 2 {
                (ServerState::Drain, ServerAction::ReadBlock)
            } else {
                (ServerState::Closed, ServerAction::Finish)
            },
            _ => (ServerState::Closed, ServerAction::Fail),
        },
        ServerState::Echo => match event {
            ServerEvent::Read(n) => if n == 0 {
                (ServerState::Closed, ServerAction::Finish)
            } else {
                (ServerState::Echo, ServerAction::WriteBack(n))
            },
            ServerEvent::Written => (ServerState::Echo, ServerAction::ReadChunk),
            _ => (ServerState::Closed, ServerAction::Fail),
        },
        ServerState::Stream => match event {
            ServerEvent::Written => (ServerState::Stream, ServerAction::WriteBlock),
            ServerEvent::Failed => (ServerState::Closed, ServerAction::Finish),
            _ => (ServerState::Closed, ServerAction::Fail),
        },
        ServerState::Drain => match event {
            ServerEvent::Read(_) => (ServerState::Drain, ServerAction::ReadBlock),
            ServerEvent::Failed => (ServerState::Closed, ServerAction::Finish),
            _ => (ServerState::Closed, ServerAction::Fail),
        },
        ServerState::Closed => (ServerState::Closed, ServerAction::Finish),
    }
}

/// The state and first action of a fresh connection.
pub fn server_start() -> (r: (ServerState, ServerAction))
    ensures
        r == (ServerState::AwaitSelector, ServerAction::ReadSelector),
{
    (ServerState::AwaitSelector, ServerAction::ReadSelector)
}

/// One step of the server: the next state and action after `event`. An
/// unknown selector closes the connection normally. In the ping test a
/// read of no bytes ends the connection and a failed read or write is
/// reported; in the download and upload tests a failed transfer is how the
/// client ends the test, so it closes the connection normally. An event
/// that the state did not ask for is reported as a failure.
pub fn server_step(state: ServerState, event: ServerEvent) -> (r: (ServerState, ServerAction))
    ensures
        r == server_next(state, event),
{
    match state {
        ServerState::AwaitSelector => match event {
            ServerEvent::Selector(b) => if b == 0 {
                (ServerState::Echo, ServerAction::ReadChunk)
            } else if b == 1 {
                (ServerState::Stream, ServerAction::WriteBlock)
            } else if b == 2 {
                (ServerState::Drain, ServerAction::ReadBlock)
            } else {
                (ServerState::Closed, ServerAction::Finish)
            },
            _ => (ServerState::Closed, ServerAction::Fail),
        },
        ServerState::Echo => match event {
            ServerEvent::Read(n) => if n == 0 {
                (ServerState::Closed, ServerAction::Finish)
            } else {
                (ServerState::Echo, ServerAction::WriteBack(n))
            },
            ServerEvent::Written => (ServerState::Echo, ServerAction::ReadChunk),
            _ => (ServerState::Closed, ServerAction::Fail),
        },
        ServerState::Stream => match event {
            ServerEvent::Written => (ServerState::Stream, ServerAction::WriteBlock),
            ServerEvent::Failed => (ServerState::Closed, ServerAction::Finish),
            _ => (ServerState::Closed, ServerAction::Fail),
        },
        ServerState::Drain => match event {
            ServerEvent::Read(_) => (ServerState::Drain, ServerAction::ReadBlock),
            ServerEvent::Failed => (ServerState::Closed, ServerAction::Finish),
            _ => (ServerState::Closed, ServerAction::Fail),
        },
        ServerState::Closed => (ServerState::Closed, ServerAction::Finish),
    }
}

/// The server state that serves a test.
pub open spec fn serving_state(kind: TestKind) -> ServerState {
    match kind {
        TestKind::Ping => ServerState::Echo,
        TestKind::Download => ServerState::Stream,
        TestKind::Upload => ServerState::Drain,
    }
}

/// The server serves the test whose selector the client sent, and closes
/// the connection on any other byte.
pub proof fn lemma_server_serves_requested_test(kind: TestKind, b: u8)
    ensures
        server_next(ServerState::AwaitSelector, ServerEvent::Selector(selector_of(kind))).0
            == serving_state(kind),
        kind_of(b) is None ==> server_next(ServerState::AwaitSelector, ServerEvent::Selector(b))
            == (ServerState::Closed, ServerAction::Finish),
{
}

/// A closed connection stays closed; once a test is being served, the
/// server stays in it until the connection ends; the ping test writes back
/// exactly the bytes it read.
pub proof fn lemma_server_run_shape(state: ServerState, event: ServerEvent, n: usize)
    ensures
        state == ServerState::Closed ==> server_next(state, event).0 == ServerState::Closed,
        (state == ServerState::Echo || state == ServerState::Stream || state == ServerState::Drain)
            ==> (server_next(state, event).0 == state || server_next(state, event).0
            == ServerState::Closed),
        state == ServerState::Echo && n > 0 ==> server_next(state, ServerEvent::Read(n)).1
            == ServerAction::WriteBack(n),
{
}

/// How a failed socket operation ends the connection: as a failure while
/// the selector is awaited and in the ping test, and as a normal close in
/// the download and upload tests.
pub proof fn lemma_server_failure_outcome(state: ServerState)
    ensures
        (state == ServerState::AwaitSelector || state == ServerState::Echo) ==> server_next(
            state,
            ServerEvent::Failed,
        ) == (ServerState::Closed, ServerAction::Fail),
        (state == ServerState::Stream || state == ServerState::Drain) ==> server_next(
            state,
            ServerEvent::Failed,
        ) == (ServerState::Closed, ServerAction::Finish),
{
}

/// The selector bytes of the tests, as the client writes them: 0 for the
/// ping test, 1 for download and 2 for upload.
pub proof fn lemma_selector_bytes()
    ensures
        selector_of(TestKind::Ping) == 0,
        selector_of(TestKind::Download) == 1,
        selector_of(TestKind::Upload) == 2,
{
}

/// Each test runs until the client stops it: the ping test answers every
/// read of `n > 0` bytes by writing those `n` bytes back and, once written,
/// reads again, and only a read of no bytes (or a failure) ends it; the
/// download test writes block after block and the upload test reads block
/// after block, until a transfer fails.
pub proof fn lemma_tests_run_until_client_stops(n: usize)
    ensures
        n > 0 ==> server_next(ServerState::Echo, ServerEvent::Read(n)) == (
            ServerState::Echo,
            ServerAction::WriteBack(n),
        ),
        server_next(ServerState::Echo, ServerEvent::Written) == (
            ServerState::Echo,
            ServerAction::ReadChunk,
        ),
        server_next(ServerState::Echo, ServerEvent::Read(0)) == (
            ServerState::Closed,
            ServerAction::Finish,
        ),
        server_next(ServerState::Stream, ServerEvent::Written) == (
            ServerState::Stream,
            ServerAction::WriteBlock,
        ),
        server_next(ServerState::Drain, ServerEvent::Read(n)) == (
            ServerState::Drain,
            ServerAction::ReadBlock,
        ),
{
}

/// The state and the actions of the server over ping rounds: for each
/// read of the given size, the step after the read and the step after the
/// write that follows it.
pub open spec fn echo_rounds(state: ServerState, reads: Seq<usize>) -> (ServerState, Seq<ServerAction>)
    decreases reads.len(),
{
    if reads.len() == 0 {
        (state, Seq::empty())
    } else {
        let prev = echo_rounds(state, reads.drop_last());
        let after_read = server_next(prev.0, ServerEvent::Read(reads.last()));
        let after_write = server_next(after_read.0, ServerEvent::Written);
        (after_write.0, prev.1.push(after_read.1).push(after_write.1))
    }
}

/// The actions of ping rounds that echo every read: write back the bytes
/// of read `k`, then read again, for each read in turn.
pub open spec fn echo_actions(reads: Seq<usize>) -> Seq<ServerAction> {
    Seq::new(
        2 * reads.len(),
        |k: int|
            if k % 2 == 0 {
                ServerAction::WriteBack(reads[k / 2])
            } else {
                ServerAction::ReadChunk
            },
    )
}

/// Over any number of ping rounds of any non-empty sizes, the server stays
/// in the ping test and writes back, in each round, exactly as many bytes
/// as it read, then reads again.
pub proof fn lemma_echo_rounds_keep_echoing(reads: Seq<usize>)
    requires
        forall|i: int| 0 <= i < reads.len() ==> #[trigger] reads[i] > 0,
    ensures
        echo_rounds(ServerState::Echo, reads).0 == ServerState::Echo,
        echo_rounds(ServerState::Echo, reads).1 == echo_actions(reads),
    decreases reads.len(),
{
    if reads.len() > 0 {
        let d = reads.drop_last();
        assert forall|i: int| 0 <= i < d.len() implies #[trigger] d[i] > 0 by {
            assert(d[i] == reads[i]);
        }
        lemma_echo_rounds_keep_echoing(d);
        let prev = echo_rounds(ServerState::Echo, d);
        let last = reads.last();
        assert(reads[reads.len() - 1] == last);
        let acts = echo_rounds(ServerState::Echo, reads).1;
        assert(acts == prev.1.push(ServerAction::WriteBack(last)).push(ServerAction::ReadChunk));
        let want = echo_actions(reads);
        assert forall|k: int| 0 <= k < acts.len() implies acts[k] == want[k] by {
            if k < 2 * d.len() {
                assert(acts[k] == prev.1[k]);
                assert(prev.1[k] == echo_actions(d)[k]);
                if k % 2 == 0 {
                    assert(d[k / 2] == reads[k / 2]);
                }
            } else if k == 2 * d.len() {
                assert(k / 2 == d.len());
            } else {
                assert(k % 2 == 1);
            }
        }
        assert(acts =~= want);
    }
}

} // verus!
