//! Connection bookkeeping: the per-connection handle whose transport and
//! I/O capabilities are claimed exactly once by protocol layers, and the
//! registry of live connections keyed by peer address.

use vstd::prelude::*;

use tokio::sync::oneshot::Sender;
use tokio::task::JoinHandle;

verus! {

/// Declares tokio's `tokio::task::JoinError`, the error with which an
/// awaited task handle resolves; needed so that the handle type below is
/// fully known. The library never awaits a task itself.
#[verifier::external_type_specification]
#[verifier::external_body]
pub struct ExJoinError(tokio::task::JoinError);

/// Declares tokio's one-shot sender, `tokio::sync::oneshot::Sender`, so
/// that a readiness notifier can sit in a handle's slot. The library only
/// stores the value and hands it out; the handshake layer fires it.
#[verifier::external_type_specification]
#[verifier::external_body]
#[verifier::reject_recursive_types(T)]
pub struct ExOneshotSender<T>(Sender<T>);

/// Declares tokio's task handle, `tokio::task::JoinHandle`, so that a
/// connection can record the background tasks spawned for it. The library
/// only appends and drains the handles; teardown logic joins or aborts
/// them.
#[verifier::external_type_specification]
#[verifier::external_body]
#[verifier::reject_recursive_types(T)]
pub struct ExJoinHandle<T>(JoinHandle<T>);

/// A remote endpoint: an IP address together with a port, the unique key
/// under which a connection is tracked. The IP address is held as its
/// 128-bit value, with an IPv4 address in its IPv6-mapped form.
#[derive(Copy, Clone, Debug, PartialEq, Eq, Hash, Structural)]
pub struct PeerAddr {
    /// The bits of the IP address.
    pub ip: u128,
    /// The port.
    pub port: u16,
}

/// Indicates who was the initiator and who was the responder when a
/// connection was established.
#[derive(Copy, Clone, Debug, PartialEq, Eq, Hash, Structural)]
pub enum ConnectionSide {
    /// The side that initiated the connection.
    Initiator,
    /// The side that accepted the connection.
    Responder,
}

impl ConnectionSide {
    /// The opposite side: the role of the counterpart on the other end of
    /// the connection.
    pub open spec fn complement(self) -> ConnectionSide {
        match self {
            ConnectionSide::Initiator => ConnectionSide::Responder,
            ConnectionSide::Responder => ConnectionSide::Initiator,
        }
    }

    /// Returns the opposite side, so that a protocol can reason about its
    /// counterpart's role without branching on direction twice.
    pub fn not(self) -> (r: ConnectionSide)
        ensures
            r == self.complement(),
    {
        match self {
            ConnectionSide::Initiator => ConnectionSide::Responder,
            ConnectionSide::Responder => ConnectionSide::Initiator,
        }
    }
}

/// The complement exchanges `Initiator` and `Responder`, and applying it
/// twice gives the original side back: it is its own inverse.
pub proof fn lemma_complement_involution(s: ConnectionSide)
    ensures
        ConnectionSide::Initiator.complement() == ConnectionSide::Responder,
        ConnectionSide::Responder.complement() == ConnectionSide::Initiator,
        s.complement().complement() == s,
{
}

/// The loud failure returned when a capability slot is claimed a second
/// time: proceeding with an empty capability would let two protocol
/// layers drive the same socket half.
#[derive(Copy, Clone, Debug, PartialEq, Eq, Structural)]
pub enum SlotError {
    /// The slot no longer holds its capability.
    AlreadyTaken,
}

/// The abstract state of a connection handle: its identity, the
/// occupancy of each capability slot, and the recorded task handles.
pub ghost struct ConnectionView<S, R, W> {
    /// The remote endpoint of the connection.
    pub addr: PeerAddr,
    /// The connection's side in relation to this node.
    pub side: ConnectionSide,
    /// The raw transport, until the handshake layer claims it.
    pub stream: Option<S>,
    /// The readable capability, once the handshake layer installs it.
    pub reader: Option<R>,
    /// The writable capability, once the handshake layer installs it.
    pub writer: Option<W>,
    /// The one-shot readiness notifier, if one is armed.
    pub readiness_notifier: Option<Sender<()>>,
    /// Handles to the background tasks spawned for the connection.
    pub tasks: Seq<JoinHandle<()>>,
}

/// Created for each active connection: holds the remote address and side,
/// plus one ownership slot per capability that a protocol layer claims.
///
/// Each slot transfers ownership exactly once: taking a slot leaves it
/// empty, and a second claim of the same capability is rejected with
/// [`SlotError::AlreadyTaken`] rather than silently handing back nothing.
/// The slots are generic in the transport `S`, readable capability `R`
/// and writable capability `W`, since this core never performs I/O on
/// them itself.
pub struct Connection<S, R, W> {
    /// The address of the connection.
    addr: PeerAddr,
    /// The connection's side in relation to this node.
    side: ConnectionSide,
    /// Available until the handshake layer claims it.
    stream: Option<S>,
    /// Installed by the handshake layer, claimed by the reading layer.
    reader: Option<R>,
    /// Installed by the handshake layer, claimed by the writing layer.
    writer: Option<W>,
    /// Notifies the reading layer that the connection is fully ready.
    readiness_notifier: Option<Sender<()>>,
    /// Handles to tasks spawned for the connection.
    tasks: Vec<JoinHandle<()>>,
}

impl<S, R, W> View for Connection<S, R, W> {
    type V = ConnectionView<S, R, W>;

    closed spec fn view(&self) -> ConnectionView<S, R, W> {
        ConnectionView {
            addr: self.addr,
            side: self.side,
            stream: self.stream,
            reader: self.reader,
            writer: self.writer,
            readiness_notifier: self.readiness_notifier,
            tasks: self.tasks@,
        }
    }
}

impl<S, R, W> Connection<S, R, W> {
    /// The handle's structural invariant: the raw transport is strictly
    /// consumed before both derived halves are in place, so the transport
    /// and its two halves are never live at the same time.
    pub open spec fn wf(self) -> bool {
        self@.stream is Some ==> !(self@.reader is Some && self@.writer is Some)
    }

    /// Creates a connection handle with the transport populated and all
    /// protocol slots empty.
    pub fn new(addr: PeerAddr, stream: S, side: ConnectionSide) -> (r: Self)
        ensures
            r@ == (ConnectionView {
                addr,
                side,
                stream: Some(stream),
                reader: None::<R>,
                writer: None::<W>,
                readiness_notifier: None::<Sender<()>>,
                tasks: Seq::<JoinHandle<()>>::empty(),
            }),
            r.wf(),
    {
        let tasks: Vec<JoinHandle<()>> = Vec::new();
        proof {
            assert(tasks@ =~= Seq::<JoinHandle<()>>::empty());
        }
        Connection {
            addr,
            side,
            stream: Some(stream),
            reader: None,
            writer: None,
            readiness_notifier: None,
            tasks,
        }
    }

    /// Returns the address associated with the connection.
    pub fn addr(&self) -> (r: PeerAddr)
        ensures
            r == self@.addr,
    {
        self.addr
    }

    /// Returns `ConnectionSide::Initiator` if the associated peer
    /// initiated the connection, and `ConnectionSide::Responder` if the
    /// connection request was initiated by this node.
    pub fn side(&self) -> (r: ConnectionSide)
        ensures
            r == self@.side,
    {
        self.side
    }

    /// Returns `true` while the raw transport is still unclaimed.
    pub fn has_stream(&self) -> (r: bool)
        ensures
            r == (self@.stream is Some),
    {
        self.stream.is_some()
    }

    /// Returns `true` while an installed readable capability is unclaimed.
    pub fn has_reader(&self) -> (r: bool)
        ensures
            r == (self@.reader is Some),
    {
        self.reader.is_some()
    }

    /// Returns `true` while an installed writable capability is unclaimed.
    pub fn has_writer(&self) -> (r: bool)
        ensures
            r == (self@.writer is Some),
    {
        self.writer.is_some()
    }

    /// Returns `true` while a readiness notifier is armed.
    pub fn has_readiness_notifier(&self) -> (r: bool)
        ensures
            r == (self@.readiness_notifier is Some),
    {
        self.readiness_notifier.is_some()
    }

    /// Claims the raw transport for the handshake layer. The slot is
    /// emptied exactly once: a second claim is rejected rather than
    /// handing back an empty capability.
    pub fn take_stream(&mut self) -> (r: Result<S, SlotError>)
        ensures
            final(self)@ == (ConnectionView { stream: None::<S>, ..old(self)@ }),
            final(self).wf(),
            (match old(self)@.stream {
                Some(s) => r == Ok::<S, SlotError>(s),
                None => r == Err::<S, SlotError>(SlotError::AlreadyTaken),
            }),
    {
        match self.stream.take() {
            Some(s) => Ok(s),
            None => Err(SlotError::AlreadyTaken),
        }
    }

    /// Installs the readable capability produced by the handshake layer.
    /// The transport must already have been consumed and the slot must
    /// still be empty: capabilities are produced exactly once.
    pub fn install_reader(&mut self, reader: R)
        requires
            old(self)@.stream is None,
            old(self)@.reader is None,
        ensures
            final(self)@ == (ConnectionView { reader: Some(reader), ..old(self)@ }),
            final(self).wf(),
    {
        self.reader = Some(reader);
    }

    /// Installs the writable capability produced by the handshake layer.
    /// The transport must already have been consumed and the slot must
    /// still be empty: capabilities are produced exactly once.
    pub fn install_writer(&mut self, writer: W)
        requires
            old(self)@.stream is None,
            old(self)@.writer is None,
        ensures
            final(self)@ == (ConnectionView { writer: Some(writer), ..old(self)@ }),
            final(self).wf(),
    {
        self.writer = Some(writer);
    }

    /// Claims the readable capability for the reading layer. The slot is
    /// emptied exactly once: a second claim is rejected rather than
    /// handing back an empty capability.
    pub fn take_reader(&mut self) -> (r: Result<R, SlotError>)
        ensures
            final(self)@ == (ConnectionView { reader: None::<R>, ..old(self)@ }),
            old(self).wf() ==> final(self).wf(),
            (match old(self)@.reader {
                Some(c) => r == Ok::<R, SlotError>(c),
                None => r == Err::<R, SlotError>(SlotError::AlreadyTaken),
            }),
    {
        match self.reader.take() {
            Some(c) => Ok(c),
            None => Err(SlotError::AlreadyTaken),
        }
    }

    /// Claims the writable capability for the writing layer. The slot is
    /// emptied exactly once: a second claim is rejected rather than
    /// handing back an empty capability.
    pub fn take_writer(&mut self) -> (r: Result<W, SlotError>)
        ensures
            final(self)@ == (ConnectionView { writer: None::<W>, ..old(self)@ }),
            old(self).wf() ==> final(self).wf(),
            (match old(self)@.writer {
                Some(c) => r == Ok::<W, SlotError>(c),
                None => r == Err::<W, SlotError>(SlotError::AlreadyTaken),
            }),
    {
        match self.writer.take() {
            Some(c) => Ok(c),
            None => Err(SlotError::AlreadyTaken),
        }
    }

    /// Arms the one-shot readiness notifier that tells the reading layer
    /// the connection is fully set up. At most one notifier is armed.
    pub fn set_readiness_notifier(&mut self, notifier: Sender<()>)
        requires
            old(self)@.readiness_notifier is None,
        ensures
            final(self)@ == (ConnectionView {
                readiness_notifier: Some(notifier),
                ..old(self)@
            }),
            old(self).wf() ==> final(self).wf(),
    {
        self.readiness_notifier = Some(notifier);
    }

    /// Disarms and returns the readiness notifier, if one was armed. An
    /// absent notifier is not an error: the reading layer simply proceeds
    /// without waiting when no handshake step is configured.
    pub fn take_readiness_notifier(&mut self) -> (r: Option<Sender<()>>)
        ensures
            final(self)@ == (ConnectionView {
                readiness_notifier: None::<Sender<()>>,
                ..old(self)@
            }),
            old(self).wf() ==> final(self).wf(),
            r == old(self)@.readiness_notifier,
    {
        self.readiness_notifier.take()
    }

    /// Records the handle of a background task spawned on behalf of this
    /// connection, so that teardown can stop it later.
    pub fn append_task(&mut self, task: JoinHandle<()>)
        ensures
            final(self)@ == (ConnectionView {
                tasks: old(self)@.tasks.push(task),
                ..old(self)@
            }),
            old(self).wf() ==> final(self).wf(),
    {
        self.tasks.push(task);
    }

    /// Returns how many background task handles the connection holds.
    pub fn num_tasks(&self) -> (r: usize)
        ensures
            r == self@.tasks.len(),
    {
        self.tasks.len()
    }

    /// Drains the recorded task handles as a unit, in the order they were
    /// appended, so that teardown can cancel or await them.
    pub fn take_tasks(&mut self) -> (r: Vec<JoinHandle<()>>)
        ensures
            final(self)@ == (ConnectionView {
                tasks: Seq::<JoinHandle<()>>::empty(),
                ..old(self)@
            }),
            old(self).wf() ==> final(self).wf(),
            r@ == old(self)@.tasks,
    {
        let mut drained: Vec<JoinHandle<()>> = Vec::new();
        core::mem::swap(&mut self.tasks, &mut drained);
        proof {
            assert(self.tasks@ =~= Seq::<JoinHandle<()>>::empty());
        }
        drained
    }
}

/// The map denoted by a sequence of connection handles, each keyed by its
/// address, later entries taking precedence.
spec fn map_of<S, R, W>(s: Seq<Connection<S, R, W>>) -> Map<PeerAddr, Connection<S, R, W>>
    decreases s.len(),
{
    if s.len() == 0 {
        Map::empty()
    } else {
        map_of(s.drop_last()).insert(s.last()@.addr, s.last())
    }
}

/// The addresses of a sequence of connection handles, in order.
spec fn addrs_of<S, R, W>(s: Seq<Connection<S, R, W>>) -> Seq<PeerAddr> {
    s.map_values(|c: Connection<S, R, W>| c@.addr)
}

/// Every pair of entries carries distinct addresses.
spec fn distinct_addrs<S, R, W>(s: Seq<Connection<S, R, W>>) -> bool {
    forall|i: int, j: int| 0 <= i < j < s.len() ==> s[i]@.addr != s[j]@.addr
}

proof fn lemma_distinct_drop_last<S, R, W>(s: Seq<Connection<S, R, W>>)
    requires
        distinct_addrs(s),
        s.len() > 0,
    ensures
        distinct_addrs(s.drop_last()),
{
    let t = s.drop_last();
    assert forall|i: int, j: int| 0 <= i < j < t.len() implies t[i]@.addr != t[j]@.addr by {
        assert(s[i]@.addr != s[j]@.addr);
    }
}

proof fn lemma_map_of_contains<S, R, W>(s: Seq<Connection<S, R, W>>, a: PeerAddr)
    ensures
        map_of(s).contains_key(a) <==> exists|i: int| 0 <= i < s.len() && s[i]@.addr == a,
    decreases s.len(),
{
    if s.len() == 0 {
    } else {
        let t = s.drop_last();
        lemma_map_of_contains(t, a);
        if s.last()@.addr == a {
            assert(s[s.len() - 1]@.addr == a);
        } else {
            if map_of(s).contains_key(a) {
                let i = choose|i: int| 0 <= i < t.len() && t[i]@.addr == a;
                assert(s[i]@.addr == a);
            }
            if exists|i: int| 0 <= i < s.len() && s[i]@.addr == a {
                let i = choose|i: int| 0 <= i < s.len() && s[i]@.addr == a;
                assert(t[i]@.addr == a);
            }
        }
    }
}

proof fn lemma_map_of_index<S, R, W>(s: Seq<Connection<S, R, W>>, i: int)
    requires
        distinct_addrs(s),
        0 <= i < s.len(),
    ensures
        map_of(s).contains_key(s[i]@.addr),
        map_of(s)[s[i]@.addr] == s[i],
    decreases s.len(),
{
    if i == s.len() - 1 {
    } else {
        lemma_distinct_drop_last(s);
        lemma_map_of_index(s.drop_last(), i);
        assert(s.last()@.addr != s[i]@.addr);
    }
}

proof fn lemma_map_of_len<S, R, W>(s: Seq<Connection<S, R, W>>)
    requires
        distinct_addrs(s),
    ensures
        map_of(s).dom().finite(),
        map_of(s).len() == s.len(),
    decreases s.len(),
{
    broadcast use vstd::set::group_set_axioms;

    if s.len() == 0 {
        assert(map_of(s).dom() =~= Set::<PeerAddr>::empty());
    } else {
        let t = s.drop_last();
        let a = s.last()@.addr;
        lemma_distinct_drop_last(s);
        lemma_map_of_len(t);
        lemma_map_of_contains(t, a);
        assert(!map_of(t).contains_key(a)) by {
            if exists|i: int| 0 <= i < t.len() && t[i]@.addr == a {
                let i = choose|i: int| 0 <= i < t.len() && t[i]@.addr == a;
                assert(s[i]@.addr != s[s.len() - 1]@.addr);
            }
        }
        assert(map_of(s).dom() =~= map_of(t).dom().insert(a));
        vstd::set::axiom_set_insert_len(map_of(t).dom(), a);
    }
}

proof fn lemma_map_of_dom<S, R, W>(s: Seq<Connection<S, R, W>>)
    ensures
        map_of(s).dom() =~= addrs_of(s).to_set(),
{
    assert forall|a: PeerAddr|
        map_of(s).dom().contains(a) <==> addrs_of(s).to_set().contains(a) by {
        lemma_map_of_contains(s, a);
        if map_of(s).contains_key(a) {
            let i = choose|i: int| 0 <= i < s.len() && s[i]@.addr == a;
            assert(addrs_of(s)[i] == a);
        }
        if addrs_of(s).to_set().contains(a) {
            let i = choose|i: int| 0 <= i < addrs_of(s).len() && addrs_of(s)[i] == a;
            assert(s[i]@.addr == a);
        }
    }
}

/// A registry of all currently tracked connections, keyed by the remote
/// address: the single source of truth for which peers are connected.
///
/// Its abstract state is a map from [`PeerAddr`] to the registered
/// [`Connection`] handle. Membership in the registry does not mean the
/// connection is already usable: an entry may still be mid-handshake.
pub struct Connections<S, R, W> {
    entries: Vec<Connection<S, R, W>>,
}

impl<S, R, W> View for Connections<S, R, W> {
    type V = Map<PeerAddr, Connection<S, R, W>>;

    closed spec fn view(&self) -> Map<PeerAddr, Connection<S, R, W>> {
        map_of(self.entries@)
    }
}

impl<S, R, W> Connections<S, R, W> {
    /// The registry's invariant: at most one connection handle exists per
    /// address. Established by [`Connections::new`] and preserved by
    /// every operation.
    pub closed spec fn wf(self) -> bool {
        distinct_addrs(self.entries@)
    }

    /// Creates an empty registry.
    pub fn new() -> (r: Self)
        ensures
            r.wf(),
            r@ == Map::<PeerAddr, Connection<S, R, W>>::empty(),
    {
        Connections { entries: Vec::new() }
    }

    /// Returns the index of the entry registered under `addr`, if any.
    fn position_of(&self, addr: PeerAddr) -> (r: Option<usize>)
        requires
            self.wf(),
        ensures
            (match r {
                Some(i) => i < self.entries@.len() && self.entries@[i as int]@.addr == addr,
                None => !self@.contains_key(addr),
            }),
    {
        let n = self.entries.len();
        let mut i: usize = 0;
        while i < n
            invariant
                n == self.entries@.len(),
                i <= n,
                forall|j: int| 0 <= j < i ==> self.entries@[j]@.addr != addr,
            decreases n - i,
        {
            if self.entries[i].addr() == addr {
                return Some(i);
            }
            i += 1;
        }
        proof {
            lemma_map_of_contains(self.entries@, addr);
        }
        None
    }

    /// Adds the given connection to the registry under its address,
    /// replacing any connection previously registered there.
    pub fn add(&mut self, conn: Connection<S, R, W>)
        requires
            old(self).wf(),
        ensures
            final(self).wf(),
            final(self)@ == old(self)@.insert(conn@.addr, conn),
    {
        let a = conn.addr();
        self.remove(a);
        let ghost mid = self.entries@;
        proof {
            lemma_map_of_contains(mid, a);
        }
        self.entries.push(conn);
        proof {
            assert(self.entries@.drop_last() =~= mid);
            assert forall|i: int, j: int|
                0 <= i < j < self.entries@.len() implies
                self.entries@[i]@.addr != self.entries@[j]@.addr by {
                if j < self.entries@.len() - 1 {
                    assert(mid[i]@.addr != mid[j]@.addr);
                } else {
                    assert(!(exists|k: int| 0 <= k < mid.len() && mid[k]@.addr == a));
                    assert(mid[i]@.addr != a);
                }
            }
            assert(map_of(self.entries@) == map_of(mid).insert(a, conn));
            assert(old(self)@.remove(a).insert(a, conn) =~= old(self)@.insert(a, conn));
        }
    }

    /// Returns `true` if the given address is connected, that is,
    /// registered here.
    pub fn is_connected(&self, addr: PeerAddr) -> (r: bool)
        requires
            self.wf(),
        ensures
            r == self@.contains_key(addr),
    {
        let r = self.position_of(addr);
        proof {
            if r is Some {
                let i = r->0;
                lemma_map_of_index(self.entries@, i as int);
            }
        }
        r.is_some()
    }

    /// Removes and returns the connection registered under the given
    /// address, so that the caller can run teardown on it. Removing an
    /// absent address is not an error: it returns `None` and leaves the
    /// registry unchanged.
    pub fn remove(&mut self, addr: PeerAddr) -> (r: Option<Connection<S, R, W>>)
        requires
            old(self).wf(),
        ensures
            final(self).wf(),
            final(self)@ == old(self)@.remove(addr),
            (match r {
                Some(c) => old(self)@.contains_key(addr) && c == old(self)@[addr],
                None => !old(self)@.contains_key(addr),
            }),
            !old(self)@.contains_key(addr) ==> final(self)@ == old(self)@,
    {
        let found = self.position_of(addr);
        match found {
            Some(i) => {
                let ghost s = self.entries@;
                proof {
                    lemma_map_of_index(s, i as int);
                }
                let c = self.entries.remove(i);
                proof {
                    lemma_remove_at(s, i as int);
                }
                Some(c)
            },
            None => {
                proof {
                    assert(old(self)@.remove(addr) =~= old(self)@);
                }
                None
            },
        }
    }

    /// Returns the number of connected addresses.
    pub fn num_connected(&self) -> (r: usize)
        requires
            self.wf(),
        ensures
            r == self@.len(),
    {
        proof {
            lemma_map_of_len(self.entries@);
        }
        self.entries.len()
    }

    /// Returns a point-in-time snapshot of the connected addresses: one
    /// entry per registered connection, in no promised order.
    pub fn addrs(&self) -> (r: Vec<PeerAddr>)
        requires
            self.wf(),
        ensures
            r@.no_duplicates(),
            r@.to_set() == self@.dom(),
            r@.len() == self@.len(),
    {
        let n = self.entries.len();
        let mut snapshot: Vec<PeerAddr> = Vec::new();
        let mut i: usize = 0;
        while i < n
            invariant
                n == self.entries@.len(),
                i <= n,
                snapshot@.len() == i,
                forall|j: int| 0 <= j < i ==> snapshot@[j] == self.entries@[j]@.addr,
            decreases n - i,
        {
            snapshot.push(self.entries[i].addr());
            i += 1;
        }
        proof {
            assert(snapshot@ =~= addrs_of(self.entries@));
            lemma_map_of_dom(self.entries@);
            lemma_map_of_len(self.entries@);
            assert(snapshot@.to_set() =~= self@.dom());
        }
        snapshot
    }
}

/// However the registry was built up by additions and removals, the three
/// ways of counting it agree: the connection count equals the length of
/// an address snapshot, and an address tests as connected exactly when
/// the snapshot holds it. The premises are what [`Connections::addrs`]
/// guarantees of its snapshot.
pub proof fn lemma_counts_agree<S, R, W>(
    registry: Map<PeerAddr, Connection<S, R, W>>,
    snapshot: Seq<PeerAddr>,
)
    requires
        snapshot.no_duplicates(),
        snapshot.to_set() == registry.dom(),
    ensures
        snapshot.len() == registry.len(),
        forall|a: PeerAddr| snapshot.contains(a) <==> registry.contains_key(a),
{
    snapshot.unique_seq_to_set();
}

/// Removing an address that was never added returns nothing and leaves
/// the registry exactly as it was; in particular the connection count
/// does not change. Together with the contract of
/// [`Connections::remove`], removal of an absent address is a no-op.
pub proof fn lemma_remove_absent<S, R, W>(
    registry: Map<PeerAddr, Connection<S, R, W>>,
    addr: PeerAddr,
)
    requires
        !registry.contains_key(addr),
    ensures
        registry.remove(addr) == registry,
        registry.remove(addr).len() == registry.len(),
{
    assert(registry.remove(addr) =~= registry);
}

/// An address just added tests as connected, and an address just removed
/// does not: the abstract states that [`Connections::add`] and
/// [`Connections::remove`] leave behind settle the very next membership
/// test.
pub proof fn lemma_membership_after_add_remove<S, R, W>(
    registry: Map<PeerAddr, Connection<S, R, W>>,
    conn: Connection<S, R, W>,
    addr: PeerAddr,
)
    ensures
        registry.insert(conn@.addr, conn).contains_key(conn@.addr),
        !registry.remove(addr).contains_key(addr),
{
}

proof fn lemma_remove_at<S, R, W>(s: Seq<Connection<S, R, W>>, i: int)
    requires
        distinct_addrs(s),
        0 <= i < s.len(),
    ensures
        distinct_addrs(s.remove(i)),
        map_of(s.remove(i)) =~= map_of(s).remove(s[i]@.addr),
    decreases s.len(),
{
    let a = s[i]@.addr;
    let t = s.drop_last();
    s.remove_ensures(i);
    lemma_distinct_drop_last(s);
    assert(distinct_addrs(s.remove(i))) by {
        assert forall|x: int, y: int|
            0 <= x < y < s.remove(i).len() implies
            s.remove(i)[x]@.addr != s.remove(i)[y]@.addr by {
            let x0: int = if x < i { x } else { x + 1 };
            let y0: int = if y < i { y } else { y + 1 };
            assert(s.remove(i)[x] == s[x0]);
            assert(s.remove(i)[y] == s[y0]);
            assert(s[x0]@.addr != s[y0]@.addr);
        }
    }
    if i == s.len() - 1 {
        assert(s.remove(i) =~= t);
        lemma_map_of_contains(t, a);
        assert(!map_of(t).contains_key(a)) by {
            if exists|k: int| 0 <= k < t.len() && t[k]@.addr == a {
                let k = choose|k: int| 0 <= k < t.len() && t[k]@.addr == a;
                assert(s[k]@.addr != s[s.len() - 1]@.addr);
            }
        }
        assert(map_of(s.remove(i)) =~= map_of(s).remove(a));
    } else {
        lemma_remove_at(t, i);
        assert(s.remove(i).drop_last() =~= t.remove(i)) by {
            s.remove_ensures(i);
            t.remove_ensures(i);
            assert forall|k: int|
                0 <= k < s.remove(i).len() - 1 implies
                s.remove(i).drop_last()[k] == t.remove(i)[k] by {
                if k < i {
                    assert(s.remove(i)[k] == s[k]);
                    assert(t.remove(i)[k] == t[k]);
                } else {
                    assert(s.remove(i)[k] == s[k + 1]);
                    assert(t.remove(i)[k] == t[k + 1]);
                }
            }
        }
        assert(s.remove(i).last() == s.last()) by {
            assert(s.remove(i)[s.len() - 2] == s[s.len() - 1]);
        }
        assert(map_of(s.remove(i)) == map_of(t.remove(i)).insert(s.last()@.addr, s.last()));
        assert(s.last()@.addr != a);
        assert(map_of(t.remove(i)).insert(s.last()@.addr, s.last()) =~= map_of(
            t,
        ).remove(a).insert(s.last()@.addr, s.last()));
        assert(map_of(t).remove(a).insert(s.last()@.addr, s.last()) =~= map_of(t).insert(
            s.last()@.addr,
            s.last(),
        ).remove(a));
    }
}

} // verus!
