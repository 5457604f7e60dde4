//! A socket: the connections of one virtual port, keyed by peer address.
use vstd::prelude::*;
use crate::packet::{PrudpPacket, VirtualPort};
use crate::connection::{Connection, PrudpSockAddr, Reaction, reaction_to};

verus! {

pub assume_specification<T>[ rand::random::<T> ]() -> (r: T)
    where
        rand::distributions::Standard: rand::distributions::Distribution<T>,
;

/// Whether some connection of `cs` belongs to `a`.
pub open spec fn has_peer(cs: Seq<Connection>, a: PrudpSockAddr) -> bool {
    exists|i: int| 0 <= i < cs.len() && (#[trigger] cs[i]).sock_addr == a
}

/// No two connections of `cs` belong to one peer.
pub open spec fn peers_unique(cs: Seq<Connection>) -> bool {
    forall|i: int, j: int| 0 <= i < cs.len() && 0 <= j < cs.len() && i != j ==> cs[i].sock_addr != cs[j].sock_addr
}

/// What a socket does with packet `p` from `addr`: `s0` before, `s1` after,
/// `r` the reaction. Its configuration stays; the peer has exactly one
/// connection afterwards, created fresh where it had none; other peers'
/// connections stay as they were; the peer's connection reacts as
/// `reaction_to` says.
pub open spec fn socket_step(s0: SocketImpl, s1: SocketImpl, addr: PrudpSockAddr, p: PrudpPacket, r: Reaction) -> bool {
    &&& s1.wf()
    &&& s1.virtual_port == s0.virtual_port
    &&& s1.access_key@ == s0.access_key@
    &&& s1.strict == s0.strict
    &&& s1.connections@.len() == s0.connections@.len() + (if has_peer(s0.connections@, addr) { 0int } else { 1int })
    &&& has_peer(s1.connections@, addr)
    &&& forall|i: int|
        0 <= i < s0.connections@.len() && s0.connections@[i].sock_addr != addr
            ==> s1.connections@[i] == s0.connections@[i]
    &&& forall|a: PrudpSockAddr| has_peer(s1.connections@, a) <==> (has_peer(s0.connections@, a) || a == addr)
    &&& exists|i: int| {
        &&& 0 <= i < s1.connections@.len()
        &&& s1.connections@[i].sock_addr == addr
        &&& has_peer(s0.connections@, addr) ==> reaction_to(
            s0.connections@[i],
            s1.connections@[i],
            p,
            s0.access_key@,
            s0.strict,
            r,
        )
        &&& !has_peer(s0.connections@, addr) ==> exists|c: Connection| {
            &&& Connection::is_fresh(c, addr, c.id)
            &&& reaction_to(c, s1.connections@[i], p, s0.access_key@, s0.strict, r)
        }
    }
}

/// The registry of one virtual port.
pub struct SocketImpl {
    pub virtual_port: VirtualPort,
    pub access_key: Vec<u8>,
    /// Refuse packets whose signature does not verify, and handshakes in
    /// which the peer offers no signature.
    pub strict: bool,
    pub connections: Vec<Connection>,
}

impl SocketImpl {
    /// Each connection is well formed and belongs to a peer of its own.
    pub open spec fn wf(&self) -> bool {
        &&& peers_unique(self.connections@)
        &&& forall|i: int| 0 <= i < self.connections@.len() ==> (#[trigger] self.connections@[i]).wf()
    }

    pub fn new(port: VirtualPort, access_key: Vec<u8>, strict: bool) -> (r: SocketImpl)
        ensures
            r.wf(),
            r.virtual_port == port,
            r.access_key@ == access_key@,
            r.strict == strict,
            r.connections@.len() == 0,
    {
        SocketImpl { virtual_port: port, access_key, strict, connections: Vec::new() }
    }

    pub fn get_virual_port(&self) -> (r: VirtualPort)
        ensures
            r == self.virtual_port,
    {
        self.virtual_port
    }

    /// The index of the connection that belongs to `addr`, if there is one.
    pub fn find_connection(&self, addr: PrudpSockAddr) -> (r: Option<usize>)
        ensures
            match r {
                Some(i) => i < self.connections@.len() && self.connections@[i as int].sock_addr == addr,
                None => !has_peer(self.connections@, addr),
            },
    {
        let mut i: usize = 0;
        while i < self.connections.len()
            invariant
                i <= self.connections@.len(),
                forall|j: int| 0 <= j < i ==> (#[trigger] self.connections@[j]).sock_addr != addr,
            decreases self.connections@.len() - i,
        {
            if self.connections[i].sock_addr == addr {
                return Some(i);
            }
            i = i + 1;
        }
        None
    }

    /// Processes a packet from `addr`, first creating the peer's connection,
    /// with identifier `id`, where it has none. A peer never gets a second
    /// connection, however many of its packets arrive before the first
    /// finishes its handshake.
    pub fn process_packet_with_id(&mut self, addr: PrudpSockAddr, packet: &PrudpPacket, id: u64) -> (r: Reaction)
        requires
            old(self).wf(),
        ensures
            socket_step(*old(self), *final(self), addr, *packet, r),
            final(self).wf(),
            final(self).virtual_port == old(self).virtual_port,
            final(self).access_key@ == old(self).access_key@,
            final(self).strict == old(self).strict,
            final(self).connections@.len() == old(self).connections@.len() + (if has_peer(
                old(self).connections@,
                addr,
            ) {
                0int
            } else {
                1int
            }),
            has_peer(final(self).connections@, addr),
            forall|i: int|
                0 <= i < old(self).connections@.len() && old(self).connections@[i].sock_addr != addr
                    ==> final(self).connections@[i] == old(self).connections@[i],
            forall|a: PrudpSockAddr| has_peer(final(self).connections@, a) <==> (has_peer(
                old(self).connections@,
                a,
            ) || a == addr),
            exists|i: int| {
                &&& 0 <= i < final(self).connections@.len()
                &&& final(self).connections@[i].sock_addr == addr
                &&& has_peer(old(self).connections@, addr) ==> reaction_to(
                    old(self).connections@[i],
                    final(self).connections@[i],
                    *packet,
                    old(self).access_key@,
                    old(self).strict,
                    r,
                )
                &&& !has_peer(old(self).connections@, addr) ==> exists|c: Connection| {
                    &&& Connection::is_fresh(c, addr, id)
                    &&& reaction_to(c, final(self).connections@[i], *packet, old(self).access_key@, old(self).strict, r)
                }
            },
    {
        let idx = match self.find_connection(addr) {
            Some(i) => i,
            None => {
                let c = Connection::new(addr, id);
                let ghost before = self.connections@;
                self.connections.push(c);
                proof {
                    let cs = self.connections@;
                    assert forall|i: int, j: int| 0 <= i < cs.len() && 0 <= j < cs.len() && i != j
                        implies cs[i].sock_addr != cs[j].sock_addr by {
                        if i < before.len() && j < before.len() {
                            assert(cs[i] == before[i] && cs[j] == before[j]);
                        } else if i < before.len() {
                            assert(cs[i] == before[i]);
                        } else {
                            assert(cs[j] == before[j]);
                        }
                    }
                    assert forall|i: int| 0 <= i < cs.len() implies (#[trigger] cs[i]).wf() by {
                        if i < before.len() {
                            assert(cs[i] == before[i]);
                        }
                    }
                }
                self.connections.len() - 1
            },
        };
        let ghost mid = self.connections@;
        assert(mid[idx as int].wf());
        let mut conn = self.connections.remove(idx);
        let ghost before_conn = conn;
        let r = conn.process_packet(packet, self.access_key.as_slice(), self.strict);
        self.connections.insert(idx, conn);
        proof {
            if has_peer(old(self).connections@, addr) {
                assert(idx < old(self).connections@.len());
                assert(mid[idx as int] == old(self).connections@[idx as int]);
            } else {
                assert(Connection::is_fresh(before_conn, addr, id));
            }
            assert(self.connections@[idx as int] == conn);
            let cs = self.connections@;
            assert(cs =~= mid.update(idx as int, conn));
            assert forall|i: int, j: int| 0 <= i < cs.len() && 0 <= j < cs.len() && i != j
                implies cs[i].sock_addr != cs[j].sock_addr by {
                assert(cs[i].sock_addr == mid[i].sock_addr);
                assert(cs[j].sock_addr == mid[j].sock_addr);
            }
            assert forall|i: int| 0 <= i < cs.len() implies (#[trigger] cs[i]).wf() by {
                if i != idx {
                    assert(cs[i] == mid[i]);
                }
            }
            assert(cs[idx as int].sock_addr == addr);
            assert forall|a: PrudpSockAddr| has_peer(cs, a) <==> (has_peer(old(self).connections@, a) || a == addr) by {
                if has_peer(cs, a) {
                    let i = choose|i: int| 0 <= i < cs.len() && (#[trigger] cs[i]).sock_addr == a;
                    if i < old(self).connections@.len() {
                        assert(mid[i] == old(self).connections@[i]);
                    }
                }
                if has_peer(old(self).connections@, a) {
                    let i = choose|i: int| 0 <= i < old(self).connections@.len() && (#[trigger] old(self).connections@[i]).sock_addr == a;
                    assert(mid[i] == old(self).connections@[i]);
                    assert(cs[i].sock_addr == a);
                }
            }
            assert forall|i: int|
                0 <= i < old(self).connections@.len() && old(self).connections@[i].sock_addr != addr
                    implies cs[i] == old(self).connections@[i] by {
                assert(mid[i] == old(self).connections@[i]);
            }
        }
        r
    }

    /// Processes a packet from `addr`, giving a new connection a random
    /// identifier.
    pub fn process_packet(&mut self, addr: PrudpSockAddr, packet: &PrudpPacket) -> (r: Reaction)
        requires
            old(self).wf(),
        ensures
            socket_step(*old(self), *final(self), addr, *packet, r),
    {
        let id: u64 = rand::random::<u64>();
        self.process_packet_with_id(addr, packet, id)
    }
}

/// However many packets a peer sends, a registry keeps at most one
/// connection for it.
pub proof fn lemma_one_connection_per_peer(cs: Seq<Connection>, a: PrudpSockAddr, i: int, j: int)
    requires
        peers_unique(cs),
        0 <= i < cs.len(),
        0 <= j < cs.len(),
        cs[i].sock_addr == a,
        cs[j].sock_addr == a,
    ensures
        i == j,
{
}

} // verus!
