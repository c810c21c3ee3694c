//! The token table: it hands out unique connection handles and resolves a
//! handle to its live connection.
//!
//! Handles are dense small integers, so the table is a direct slot array:
//! slot `i` holds the connection bound to token `i + 1`, lookup is one
//! index operation and no hashing happens at all. Token 0 is reserved for
//! the listening socket and is never handed out.

use vstd::prelude::*;

verus! {

/// An opaque, non-zero handle naming a registered connection.
#[derive(Clone, Copy, Debug, PartialEq, Eq, Hash, Structural)]
pub struct Token(pub usize);

/// The readiness interest a connection is registered with.
#[derive(Clone, Copy, Debug, PartialEq, Eq, Structural)]
pub enum Interest {
    Readable,
    Writable,
    Both,
}

/// The lifecycle state of a connection.
#[derive(Clone, Copy, Debug, PartialEq, Eq, Structural)]
pub enum ConnState {
    /// Waiting for bytes from the peer.
    AwaitingRead,
    /// A response is due; waiting for the socket to take it.
    AwaitingWrite,
    /// The stream has ended.
    Closed,
}

/// A live connection as the core models it: the accumulated read buffer,
/// the logical state, and the registered interest. The socket itself stays
/// with the embedding program, keyed by the same token.
#[derive(Debug)]
pub struct Connection {
    /// Bytes read so far and not yet consumed.
    pub buffer: Vec<u8>,
    /// The lifecycle state.
    pub state: ConnState,
    /// The interest the connection is (to be) registered with.
    pub interest: Interest,
}

/// The mathematical value of a connection.
pub struct ConnectionView {
    pub buffer: Seq<u8>,
    pub state: ConnState,
    pub interest: Interest,
}

impl View for Connection {
    type V = ConnectionView;

    open spec fn view(&self) -> ConnectionView {
        ConnectionView { buffer: self.buffer@, state: self.state, interest: self.interest }
    }
}

/// The view of a connection fresh from `accept`: empty buffer, awaiting
/// its first read.
pub open spec fn fresh_connection_view() -> ConnectionView {
    ConnectionView {
        buffer: Seq::empty(),
        state: ConnState::AwaitingRead,
        interest: Interest::Readable,
    }
}

impl Connection {
    /// A fresh connection awaiting its first read.
    pub fn new() -> (r: Connection)
        ensures
            r@ == fresh_connection_view(),
    {
        Connection {
            buffer: Vec::new(),
            state: ConnState::AwaitingRead,
            interest: Interest::Readable,
        }
    }
}

/// `h` is the handle the table hands out next: the least positive handle
/// not currently bound.
pub open spec fn is_smallest_free(m: Map<int, ConnectionView>, h: int) -> bool {
    &&& h >= 1
    &&& !m.contains_key(h)
    &&& forall|g: int| 1 <= g < h ==> m.contains_key(g)
}

/// The token table. Its abstract value is the finite binding of live
/// tokens to connections.
pub struct ConnMgr {
    slots: Vec<Option<Connection>>,
}

impl View for ConnMgr {
    type V = Map<int, ConnectionView>;

    /// The binding of live tokens to connections.
    closed spec fn view(&self) -> Map<int, ConnectionView> {
        Map::new(
            |h: int| 1 <= h <= self.slots@.len() && self.slots@[h - 1] is Some,
            |h: int| self.slots@[h - 1]->0@,
        )
    }
}

impl ConnMgr {
    /// How many slots the table has ever grown to; every live token lies
    /// within them.
    pub closed spec fn slot_count(&self) -> nat {
        self.slots@.len()
    }

    /// An empty table: no token is bound.
    pub fn new() -> (r: ConnMgr)
        ensures
            r@ == Map::<int, ConnectionView>::empty(),
            r.slot_count() == 0,
    {
        let r = ConnMgr { slots: Vec::new() };
        proof {
            assert(r@ =~= Map::<int, ConnectionView>::empty());
        }
        r
    }

    /// The slot count as a machine integer, for callers that must test the
    /// allocation precondition before asking for a handle.
    pub fn slot_len(&self) -> (r: usize)
        ensures
            r == self.slot_count(),
    {
        self.slots.len()
    }

    /// Whether the token is currently bound to a connection.
    pub fn contains(&self, token_id: &usize) -> (r: bool)
        ensures
            r == self@.contains_key(*token_id as int),
    {
        let tid = *token_id;
        tid >= 1 && tid <= self.slots.len() && self.slots[tid - 1].is_some()
    }

    /// Bind `value` to the smallest handle not in use and return that
    /// handle. The handle returned is never one that is currently held,
    /// and every handle below it is in use; releasing a handle therefore
    /// makes that value eligible to be returned again.
    pub fn generate_token(&mut self, value: Connection) -> (r: Token)
        requires
            old(self).slot_count() < usize::MAX,
        ensures
            is_smallest_free(old(self)@, r.0 as int),
            final(self)@ == old(self)@.insert(r.0 as int, value@),
            final(self).slot_count() <= old(self).slot_count() + 1,
            final(self).slot_count() >= old(self).slot_count(),
            r.0 >= 1,
    {
        let n = self.slots.len();
        let mut i: usize = 0;
        while i < n
            invariant
                0 <= i <= n,
                self == old(self),
                n == old(self).slot_count(),
                forall|j: int| 0 <= j < i ==> old(self).slots@[j] is Some,
            decreases n - i,
        {
            if self.slots[i].is_none() {
                let slot = &mut self.slots[i];
                *slot = Some(value);
                proof {
                    assert(forall|g: int|
                        1 <= g < i + 1 ==> old(self)@.contains_key(g));
                    assert(!old(self)@.contains_key(i + 1));
                    assert(final(self)@ =~= old(self)@.insert(
                        i + 1,
                        final(slot)->0@,
                    ));
                }
                return Token(i + 1);
            }
            i += 1;
        }
        self.slots.push(Some(value));
        proof {
            assert(forall|g: int| 1 <= g <= n ==> old(self)@.contains_key(g));
            assert(!old(self)@.contains_key(n + 1));
            assert(final(self)@ =~= old(self)@.insert(n + 1, value@));
        }
        Token(n + 1)
    }

    /// Resolve a token to its connection. A stale or unknown token
    /// resolves to nothing; the caller must treat that as a logic error,
    /// since the readiness registry should never report a handle that has
    /// no binding.
    pub fn get_stream(&mut self, token_id: &usize) -> (r: Option<&mut Connection>)
        ensures
            match r {
                Some(c) => {
                    &&& old(self)@.contains_key(*token_id as int)
                    &&& (*c)@ == old(self)@[*token_id as int]
                    &&& final(self)@ == old(self)@.insert(*token_id as int, final(c)@)
                    &&& final(self).slot_count() == old(self).slot_count()
                },
                None => {
                    &&& !old(self)@.contains_key(*token_id as int)
                    &&& final(self)@ == old(self)@
                    &&& final(self).slot_count() == old(self).slot_count()
                },
            },
    {
        let tid = *token_id;
        if tid >= 1 && tid <= self.slots.len() {
            match &mut self.slots[tid - 1] {
                Some(c) => Some(c),
                None => None,
            }
        } else {
            None
        }
    }

    /// Remove the binding of a live token and hand the connection back, so
    /// the caller can deregister its socket in the same step; the handle
    /// becomes free for reuse. Releasing a token that is not live is a
    /// contract violation and is excluded by the precondition.
    pub fn release_token(&mut self, token: Token) -> (c: Connection)
        requires
            old(self)@.contains_key(token.0 as int),
        ensures
            final(self)@ == old(self)@.remove(token.0 as int),
            c@ == old(self)@[token.0 as int],
            final(self).slot_count() == old(self).slot_count(),
    {
        let slot = &mut self.slots[token.0 - 1];
        let taken = slot.take();
        match taken {
            Some(c) => {
                proof {
                    assert(final(self)@ =~= old(self)@.remove(token.0 as int));
                }
                c
            },
            None => {
                proof {
                    assert(false);
                }
                Connection::new()
            },
        }
    }
}

/// Law: a held handle is never handed out again. An allocation returns a
/// handle that is smallest-free in the current binding, and such a handle
/// differs from every bound one.
pub proof fn lemma_allocate_fresh(m: Map<int, ConnectionView>, h: int, r: int)
    requires
        m.contains_key(h),
        is_smallest_free(m, r),
    ensures
        r != h,
{
}

/// Law: the handle an allocation returns is uniquely determined by the
/// binding: two smallest-free handles of one binding are equal.
pub proof fn lemma_smallest_free_unique(m: Map<int, ConnectionView>, a: int, b: int)
    requires
        is_smallest_free(m, a),
        is_smallest_free(m, b),
    ensures
        a == b,
{
    if a < b {
        assert(m.contains_key(a));
    } else if b < a {
        assert(m.contains_key(b));
    }
}

/// Law: releasing a handle makes exactly that value eligible for reuse.
/// After removing `h` from a binding in which every handle below `h` was
/// taken, looking `h` up finds nothing, and `h` is the handle the next
/// allocation returns.
pub proof fn lemma_release_enables_reuse(m: Map<int, ConnectionView>, h: int)
    requires
        m.contains_key(h),
        h >= 1,
        forall|g: int| 1 <= g < h ==> m.contains_key(g),
    ensures
        !m.remove(h).contains_key(h),
        is_smallest_free(m.remove(h), h),
{
}

} // verus!
