//! The decision core of the readiness loop.
//!
//! The loop itself — waiting on the readiness registry, accepting,
//! reading and writing sockets — is I/O and stays with the embedding
//! program. That program hands every outcome back here as a plain value,
//! and these functions decide what happens to the connection table and
//! what the program must do next with the socket. The policy is the
//! simple one: once any data has been read from a connection, a response
//! is due and interest turns to writing; end of stream or a fatal error
//! releases the handle; would-block never changes state.

use vstd::prelude::*;

use crate::connection_manager::{
    ConnMgr, ConnState, Connection, ConnectionView, Interest, Token, fresh_connection_view,
};

verus! {

/// How one non-blocking read session ended, after draining whatever bytes
/// were available.
#[derive(Clone, Copy, Debug, PartialEq, Eq, Structural)]
pub enum ReadEnd {
    /// No more bytes right now; the peer may send more later.
    WouldBlock,
    /// The peer closed the stream.
    Eof,
    /// The stream failed with anything other than would-block.
    Fatal,
}

/// How a write attempt ended.
#[derive(Clone, Copy, Debug, PartialEq, Eq, Structural)]
pub enum WriteEnd {
    /// The response was written in full.
    Done,
    /// The socket would block; retry on the next writable notification.
    WouldBlock,
    /// The stream failed with anything other than would-block.
    Fatal,
}

/// What the embedding program must do with the connection's socket after a
/// decision.
#[derive(Clone, Copy, Debug, PartialEq, Eq, Structural)]
pub enum IoAction {
    /// Re-register the socket for readable events.
    ReregisterReadable,
    /// Re-register the socket for writable events.
    ReregisterWritable,
    /// Re-register the socket for both kinds of event.
    ReregisterBoth,
    /// Deregister the socket and drop it; its token has been released.
    Deregister,
}

/// The action that re-registers a given interest.
pub open spec fn interest_action(i: Interest) -> IoAction {
    match i {
        Interest::Readable => IoAction::ReregisterReadable,
        Interest::Writable => IoAction::ReregisterWritable,
        Interest::Both => IoAction::ReregisterBoth,
    }
}

/// The connection after a read session that ended in would-block: the
/// drained bytes are appended, and once the buffer holds anything a
/// response is due, so the state moves to awaiting-write and interest
/// turns to writing.
pub open spec fn after_read(c: ConnectionView, data: Seq<u8>) -> ConnectionView {
    let buf = c.buffer + data;
    if buf.len() > 0 {
        ConnectionView {
            buffer: buf,
            state: ConnState::AwaitingWrite,
            interest: Interest::Writable,
        }
    } else {
        ConnectionView { buffer: buf, state: c.state, interest: c.interest }
    }
}

/// The connection after its response has been written in full: interest
/// turns back to reading until the peer closes the stream.
pub open spec fn after_write(c: ConnectionView) -> ConnectionView {
    ConnectionView {
        buffer: c.buffer,
        state: ConnState::AwaitingRead,
        interest: Interest::Readable,
    }
}

/// The reactor's verified state: the token table. The listening socket and
/// the readiness registry stay with the embedding program.
pub struct Reactor {
    /// The table binding live tokens to connections.
    pub conn_mgr: ConnMgr,
}

impl Reactor {
    /// A reactor with no connections.
    pub fn new() -> (r: Reactor)
        ensures
            r.conn_mgr@ == Map::<int, ConnectionView>::empty(),
            r.conn_mgr.slot_count() == 0,
    {
        Reactor { conn_mgr: ConnMgr::new() }
    }

    /// Register one batch of accepted connections: the embedding program
    /// drains `accept` until it would block and reports how many pending
    /// connections arrived; exactly that many fresh tokens are bound, all
    /// distinct, all previously free, each to a connection awaiting its
    /// first read, and no existing binding is touched.
    pub fn accept_batch(&mut self, count: usize) -> (tokens: Vec<Token>)
        requires
            old(self).conn_mgr.slot_count() + count < usize::MAX,
        ensures
            tokens@.len() == count,
            forall|a: int, b: int| 0 <= a < b < count ==> tokens@[a].0 != tokens@[b].0,
            forall|a: int|
                0 <= a < count ==> (#[trigger] tokens@[a]).0 >= 1 && !old(
                    self,
                ).conn_mgr@.contains_key(tokens@[a].0 as int),
            forall|a: int|
                0 <= a < count ==> final(self).conn_mgr@.contains_key(
                    (#[trigger] tokens@[a]).0 as int,
                ) && final(self).conn_mgr@[tokens@[a].0 as int] == fresh_connection_view(),
            forall|h: int|
                #[trigger] old(self).conn_mgr@.contains_key(h)
                    ==> final(self).conn_mgr@.contains_key(h) && final(self).conn_mgr@[h] == old(
                    self,
                ).conn_mgr@[h],
            forall|h: int|
                #[trigger] final(self).conn_mgr@.contains_key(h) ==> old(
                    self,
                ).conn_mgr@.contains_key(h) || exists|a: int| 0 <= a < count && tokens@[a].0 == h,
            final(self).conn_mgr.slot_count() <= old(self).conn_mgr.slot_count() + count,
    {
        let mut tokens: Vec<Token> = Vec::new();
        let mut i: usize = 0;
        while i < count
            invariant
                i == tokens@.len(),
                0 <= i <= count,
                old(self).conn_mgr.slot_count() + count < usize::MAX,
                self.conn_mgr.slot_count() <= old(self).conn_mgr.slot_count() + i,
                forall|a: int, b: int| 0 <= a < b < i ==> tokens@[a].0 != tokens@[b].0,
                forall|a: int|
                    0 <= a < i ==> (#[trigger] tokens@[a]).0 >= 1 && !old(
                        self,
                    ).conn_mgr@.contains_key(tokens@[a].0 as int),
                forall|a: int|
                    0 <= a < i ==> self.conn_mgr@.contains_key((#[trigger] tokens@[a]).0 as int)
                        && self.conn_mgr@[tokens@[a].0 as int] == fresh_connection_view(),
                forall|h: int|
                    #[trigger] old(self).conn_mgr@.contains_key(h)
                        ==> self.conn_mgr@.contains_key(h) && self.conn_mgr@[h] == old(
                        self,
                    ).conn_mgr@[h],
                forall|h: int|
                    #[trigger] self.conn_mgr@.contains_key(h) ==> old(self).conn_mgr@.contains_key(
                        h,
                    ) || exists|a: int| 0 <= a < i && tokens@[a].0 == h,
            decreases count - i,
        {
            let ghost pre = self.conn_mgr@;
            let ghost pre_tokens = tokens@;
            let t = self.conn_mgr.generate_token(Connection::new());
            tokens.push(t);
            proof {
                assert(!pre.contains_key(t.0 as int));
                assert(self.conn_mgr@ == pre.insert(t.0 as int, fresh_connection_view()));
                assert(forall|a: int|
                    0 <= a < pre_tokens.len() ==> tokens@[a] == pre_tokens[a]);
                assert(tokens@[pre_tokens.len() as int] == t);
                assert forall|h: int|
                    old(self).conn_mgr@.contains_key(h) implies self.conn_mgr@.contains_key(h)
                    && self.conn_mgr@[h] == old(self).conn_mgr@[h] by {
                    assert(pre.contains_key(h) && pre[h] == old(self).conn_mgr@[h]);
                    assert(self.conn_mgr@.contains_key(h));
                }
                assert(!old(self).conn_mgr@.contains_key(t.0 as int)) by {
                    if old(self).conn_mgr@.contains_key(t.0 as int) {
                        assert(pre.contains_key(t.0 as int));
                    }
                }
                assert forall|a: int|
                    0 <= a < pre_tokens.len() + 1 implies tokens@[a].0 >= 1 && !old(
                    self,
                ).conn_mgr@.contains_key(tokens@[a].0 as int) by {
                    if a < pre_tokens.len() {
                        assert(tokens@[a] == pre_tokens[a]);
                    } else {
                        assert(tokens@[a] == t);
                    }
                }
            }
            i += 1;
        }
        tokens
    }

    /// Apply the outcome of one read session on a live connection. The
    /// drained bytes are appended to its buffer; on would-block the
    /// connection keeps its binding, turning to write interest once any
    /// data has been observed; end of stream and fatal errors are
    /// connection-local and release the handle, never the reactor.
    pub fn on_read_event(&mut self, token: Token, data: Vec<u8>, end: ReadEnd) -> (r: IoAction)
        requires
            old(self).conn_mgr@.contains_key(token.0 as int),
        ensures
            final(self).conn_mgr.slot_count() == old(self).conn_mgr.slot_count(),
            match end {
                ReadEnd::WouldBlock => {
                    let c = after_read(old(self).conn_mgr@[token.0 as int], data@);
                    &&& final(self).conn_mgr@ == old(self).conn_mgr@.insert(token.0 as int, c)
                    &&& r == interest_action(c.interest)
                },
                _ => {
                    &&& final(self).conn_mgr@ == old(self).conn_mgr@.remove(token.0 as int)
                    &&& r == IoAction::Deregister
                },
            },
    {
        match end {
            ReadEnd::WouldBlock => {
                let mut data = data;
                match self.conn_mgr.get_stream(&token.0) {
                    Some(c) => {
                        c.buffer.append(&mut data);
                        if c.buffer.len() > 0 {
                            c.state = ConnState::AwaitingWrite;
                            c.interest = Interest::Writable;
                        }
                        match c.interest {
                            Interest::Readable => IoAction::ReregisterReadable,
                            Interest::Writable => IoAction::ReregisterWritable,
                            Interest::Both => IoAction::ReregisterBoth,
                        }
                    },
                    None => {
                        proof {
                            assert(false);
                        }
                        IoAction::Deregister
                    },
                }
            },
            _ => {
                let _closed = self.conn_mgr.release_token(token);
                IoAction::Deregister
            },
        }
    }

    /// Apply the outcome of a write attempt on a live connection. A
    /// completed response turns interest back to reading; would-block
    /// changes nothing and the write is retried on the next writable
    /// notification; a fatal error is connection-local and releases the
    /// handle.
    pub fn on_write_event(&mut self, token: Token, end: WriteEnd) -> (r: IoAction)
        requires
            old(self).conn_mgr@.contains_key(token.0 as int),
        ensures
            final(self).conn_mgr.slot_count() == old(self).conn_mgr.slot_count(),
            match end {
                WriteEnd::Done => {
                    let c = after_write(old(self).conn_mgr@[token.0 as int]);
                    &&& final(self).conn_mgr@ == old(self).conn_mgr@.insert(token.0 as int, c)
                    &&& r == IoAction::ReregisterReadable
                },
                WriteEnd::WouldBlock => {
                    &&& final(self).conn_mgr@ == old(self).conn_mgr@
                    &&& r == IoAction::ReregisterWritable
                },
                WriteEnd::Fatal => {
                    &&& final(self).conn_mgr@ == old(self).conn_mgr@.remove(token.0 as int)
                    &&& r == IoAction::Deregister
                },
            },
    {
        match end {
            WriteEnd::Done => {
                match self.conn_mgr.get_stream(&token.0) {
                    Some(c) => {
                        c.state = ConnState::AwaitingRead;
                        c.interest = Interest::Readable;
                        IoAction::ReregisterReadable
                    },
                    None => {
                        proof {
                            assert(false);
                        }
                        IoAction::Deregister
                    },
                }
            },
            WriteEnd::WouldBlock => IoAction::ReregisterWritable,
            WriteEnd::Fatal => {
                let _closed = self.conn_mgr.release_token(token);
                IoAction::Deregister
            },
        }
    }
}

} // verus!
