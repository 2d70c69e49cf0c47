//! The table of live datagram forwarding sessions of one UDP bridge, keyed by
//! client address.
//!
//! Each entry holds the handle through which datagrams reach its session (in
//! practice the sending end of the session's bounded input queue). A session is
//! opened for a client with no live session, or in place of one whose queue has
//! closed, and removes its own entry when it tears down.

use vstd::prelude::*;

verus! {

/// Capacity of a session's input queue.
pub const SESSION_QUEUE_CAPACITY: usize = 256;

/// The address of a local client: an IP address (IPv4 in the low 32 bits when
/// `v6` is false) and a port.
#[derive(Debug, Clone, Copy, PartialEq, Eq, Structural)]
pub struct ClientAddr {
    pub ip: u128,
    pub port: u16,
    pub v6: bool,
}

/// One live session.
pub struct SessionEntry<S> {
    pub addr: ClientAddr,
    pub id: u64,
    pub handle: S,
}

/// Where a datagram from a client goes.
#[derive(Debug, Clone, Copy, PartialEq, Eq, Structural)]
pub enum Route {
    /// Into the input queue of the client's live session.
    Forward(u64),
    /// To a new session, opened for it.
    Open,
}

/// A change to the table: a session opened for a client, or a session that closed.
pub enum TableOp {
    Open(ClientAddr, u64),
    Close(ClientAddr, u64),
}

/// The live sessions after one change.
pub open spec fn apply_op(m: Map<ClientAddr, u64>, op: TableOp) -> Map<ClientAddr, u64> {
    match op {
        TableOp::Open(a, id) => m.insert(a, id),
        TableOp::Close(a, id) => if m.contains_key(a) && m[a] == id {
            m.remove(a)
        } else {
            m
        },
    }
}

/// The live sessions after a run of changes.
pub open spec fn apply_ops(m: Map<ClientAddr, u64>, ops: Seq<TableOp>) -> Map<ClientAddr, u64>
    decreases ops.len(),
{
    if ops.len() == 0 {
        m
    } else {
        apply_ops(apply_op(m, ops[0]), ops.subrange(1, ops.len() as int))
    }
}

/// Where a datagram from `addr` goes, given the live sessions.
pub open spec fn route_of(m: Map<ClientAddr, u64>, addr: ClientAddr) -> Route {
    if m.contains_key(addr) {
        Route::Forward(m[addr])
    } else {
        Route::Open
    }
}

/// `op` neither opens a session for `addr` nor closes session `id` of it.
pub open spec fn keeps_session(op: TableOp, addr: ClientAddr, id: u64) -> bool {
    match op {
        TableOp::Open(a, _) => a != addr,
        TableOp::Close(a, i) => !(a == addr && i == id),
    }
}

pub struct SessionTable<S> {
    entries: Vec<SessionEntry<S>>,
    next_id: u64,
    live: Ghost<Map<ClientAddr, u64>>,
    handles: Ghost<Map<ClientAddr, S>>,
}

impl<S> SessionTable<S> {
    /// The live sessions: each client address with the id of its session.
    pub closed spec fn view(&self) -> Map<ClientAddr, u64> {
        self.live@
    }

    /// The handle of each live session.
    pub closed spec fn handles(&self) -> Map<ClientAddr, S> {
        self.handles@
    }

    /// Ids handed out so far are all below this one.
    pub closed spec fn next_id(&self) -> u64 {
        self.next_id
    }

    /// The client addresses of the entries, in table order.
    pub closed spec fn clients(&self) -> Seq<ClientAddr> {
        self.entries@.map_values(|e: SessionEntry<S>| e.addr)
    }

    pub closed spec fn wf(&self) -> bool {
        &&& forall|i: int, j: int|
            0 <= i < j < self.entries@.len() ==> self.entries@[i].addr != self.entries@[j].addr
        &&& forall|i: int|
            0 <= i < self.entries@.len() ==> #[trigger] self.entries@[i].id < self.next_id
        &&& forall|i: int|
            0 <= i < self.entries@.len() ==> self.live@.contains_key(#[trigger] self.entries@[i].addr)
                && self.live@[self.entries@[i].addr] == self.entries@[i].id
        &&& forall|a: ClientAddr|
            self.live@.contains_key(a) ==> exists|i: int|
                0 <= i < self.entries@.len() && #[trigger] self.entries@[i].addr == a
        &&& forall|i: int|
            0 <= i < self.entries@.len() ==> self.handles@.contains_key(#[trigger] self.entries@[i].addr)
                && self.handles@[self.entries@[i].addr] == self.entries@[i].handle
        &&& self.handles@.dom() == self.live@.dom()
        &&& self.live@.dom().finite()
        &&& self.live@.len() == self.entries@.len()
    }

    /// An empty table.
    pub fn new() -> (r: Self)
        ensures
            r.wf(),
            r@ == Map::<ClientAddr, u64>::empty(),
            r.next_id() == 0,
    {
        SessionTable {
            entries: Vec::new(),
            next_id: 0,
            live: Ghost(Map::empty()),
            handles: Ghost(Map::empty()),
        }
    }

    fn find(&self, addr: ClientAddr) -> (r: Option<usize>)
        requires
            self.wf(),
        ensures
            match r {
                Some(i) => i < self.entries@.len() && self.entries@[i as int].addr == addr,
                None => !self@.contains_key(addr),
            },
    {
        let mut i: usize = 0;
        while i < self.entries.len()
            invariant
                i <= self.entries@.len(),
                forall|j: int| 0 <= j < i ==> self.entries@[j].addr != addr,
            decreases self.entries@.len() - i,
        {
            if self.entries[i].addr == addr {
                return Some(i);
            }
            i = i + 1;
        }
        None
    }

    /// Whether `addr` has a live session.
    pub fn is_live(&self, addr: ClientAddr) -> (r: bool)
        requires
            self.wf(),
        ensures
            r == self@.contains_key(addr),
    {
        self.find(addr).is_some()
    }

    /// Where a datagram from `addr` goes.
    pub fn route(&self, addr: ClientAddr) -> (r: Route)
        requires
            self.wf(),
        ensures
            r == route_of(self@, addr),
    {
        match self.find(addr) {
            Some(i) => Route::Forward(self.entries[i].id),
            None => Route::Open,
        }
    }

    /// The handle of the live session of `addr`.
    pub fn handle(&self, addr: ClientAddr) -> (r: Option<&S>)
        requires
            self.wf(),
        ensures
            r is Some <==> self@.contains_key(addr),
            r matches Some(h) ==> *h == self.handles()[addr],
    {
        match self.find(addr) {
            Some(i) => Some(&self.entries[i].handle),
            None => None,
        }
    }

    /// The number of live sessions.
    pub fn len(&self) -> (r: usize)
        requires
            self.wf(),
        ensures
            r == self@.len(),
    {
        self.entries.len()
    }

    /// Removes the entry at `i`.
    fn remove_at(&mut self, i: usize)
        requires
            old(self).wf(),
            i < old(self).entries@.len(),
        ensures
            final(self).wf(),
            final(self)@ == old(self)@.remove(old(self).entries@[i as int].addr),
            final(self).handles() == old(self).handles().remove(old(self).entries@[i as int].addr),
            final(self).next_id == old(self).next_id,
    {
        let ghost a = self.entries@[i as int].addr;
        let ghost old_entries = self.entries@;
        let _ = self.entries.remove(i);
        self.live = Ghost(self.live@.remove(a));
        self.handles = Ghost(self.handles@.remove(a));
        assert(self.handles@.dom() =~= self.live@.dom());
        assert forall|b: ClientAddr| self.live@.contains_key(b) implies exists|k: int|
            0 <= k < self.entries@.len() && #[trigger] self.entries@[k].addr == b by {
            let k0 = choose|k: int| 0 <= k < old_entries.len() && #[trigger] old_entries[k].addr == b;
            if k0 < i {
                assert(self.entries@[k0].addr == b);
            } else {
                assert(k0 != i);
                assert(self.entries@[k0 - 1].addr == b);
            }
        }
    }

    /// Opens a session with this handle for `addr`, in place of the session that
    /// `addr` has, if any, and returns its id; `None`, with the table unchanged,
    /// once every id has been handed out.
    pub fn open(&mut self, addr: ClientAddr, handle: S) -> (r: Option<u64>)
        requires
            old(self).wf(),
        ensures
            final(self).wf(),
            match r {
                Some(id) => {
                    &&& id == old(self).next_id()
                    &&& final(self)@ == apply_op(old(self)@, TableOp::Open(addr, id))
                    &&& final(self).handles() == old(self).handles().insert(addr, handle)
                    &&& final(self).next_id() == id + 1
                },
                None => {
                    &&& old(self).next_id() == u64::MAX
                    &&& final(self)@ == old(self)@
                    &&& final(self).handles() == old(self).handles()
                    &&& final(self).next_id() == old(self).next_id()
                },
            },
    {
        if self.next_id == u64::MAX {
            return None;
        }
        if let Some(i) = self.find(addr) {
            self.remove_at(i);
        }
        assert(!self@.contains_key(addr));
        let id = self.next_id;
        let ghost before = self.entries@;
        let ghost h = handle;
        self.entries.push(SessionEntry { addr, id, handle });
        self.next_id = id + 1;
        self.live = Ghost(self.live@.insert(addr, id));
        self.handles = Ghost(self.handles@.insert(addr, h));
        assert(self.handles@.dom() =~= self.live@.dom());
        assert(self.entries@[before.len() as int].addr == addr);
        assert forall|b: ClientAddr| self.live@.contains_key(b) implies exists|k: int|
            0 <= k < self.entries@.len() && #[trigger] self.entries@[k].addr == b by {
            if b == addr {
                assert(self.entries@[before.len() as int].addr == b);
            } else {
                let k0 = choose|k: int| 0 <= k < before.len() && #[trigger] before[k].addr == b;
                assert(self.entries@[k0].addr == b);
            }
        }
        assert(old(self)@.remove(addr).insert(addr, id) =~= old(self)@.insert(addr, id));
        assert(old(self).handles().remove(addr).insert(addr, h) =~= old(self).handles().insert(addr, h));
        Some(id)
    }

    /// Records that session `id` of `addr` has torn down: its entry leaves the
    /// table, unless `addr` has a newer session by now.
    pub fn close(&mut self, addr: ClientAddr, id: u64)
        requires
            old(self).wf(),
        ensures
            final(self).wf(),
            final(self)@ == apply_op(old(self)@, TableOp::Close(addr, id)),
            final(self).handles() == if old(self)@.contains_key(addr) && old(self)@[addr] == id {
                old(self).handles().remove(addr)
            } else {
                old(self).handles()
            },
            final(self).next_id() == old(self).next_id(),
    {
        if let Some(i) = self.find(addr) {
            if self.entries[i].id == id {
                self.remove_at(i);
            }
        }
    }
}

/// A client has at most one live session: no client address appears twice in
/// a well-formed table, and every live session is one of its entries.
pub proof fn law_one_session_per_client<S>(t: &SessionTable<S>)
    requires
        t.wf(),
    ensures
        forall|i: int, j: int|
            0 <= i < j < t.clients().len() ==> t.clients()[i] != t.clients()[j],
        forall|a: ClientAddr| t@.contains_key(a) <==> t.clients().contains(a),
{
    assert forall|a: ClientAddr| t@.contains_key(a) <==> t.clients().contains(a) by {
        if t@.contains_key(a) {
            let k = choose|k: int| 0 <= k < t.entries@.len() && #[trigger] t.entries@[k].addr == a;
            assert(t.clients()[k] == a);
        }
        if t.clients().contains(a) {
            let k = choose|k: int| 0 <= k < t.clients().len() && t.clients()[k] == a;
            assert(t.entries@[k].addr == a);
        }
    }
}

/// Once a session is opened for a client, every datagram of that client goes to
/// it, through any run of changes that neither opens another session for the
/// client nor closes this one.
pub proof fn law_datagrams_follow_session(
    m: Map<ClientAddr, u64>,
    addr: ClientAddr,
    id: u64,
    ops: Seq<TableOp>,
)
    requires
        forall|k: int| 0 <= k < ops.len() ==> keeps_session(#[trigger] ops[k], addr, id),
    ensures
        route_of(apply_ops(apply_op(m, TableOp::Open(addr, id)), ops), addr) == Route::Forward(id),
{
    lemma_session_kept(m.insert(addr, id), addr, id, ops);
}

proof fn lemma_session_kept(m: Map<ClientAddr, u64>, addr: ClientAddr, id: u64, ops: Seq<TableOp>)
    requires
        m.contains_key(addr),
        m[addr] == id,
        forall|k: int| 0 <= k < ops.len() ==> keeps_session(#[trigger] ops[k], addr, id),
    ensures
        apply_ops(m, ops).contains_key(addr),
        apply_ops(m, ops)[addr] == id,
    decreases ops.len(),
{
    if ops.len() > 0 {
        let m1 = apply_op(m, ops[0]);
        assert(keeps_session(ops[0], addr, id));
        let rest = ops.subrange(1, ops.len() as int);
        assert forall|k: int| 0 <= k < rest.len() implies keeps_session(#[trigger] rest[k], addr, id) by {
            assert(rest[k] == ops[k + 1]);
        }
        lemma_session_kept(m1, addr, id, rest);
    }
}

} // verus!
