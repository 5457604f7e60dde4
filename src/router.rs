//! The router: one UDP transport shared by sockets on distinct virtual ports.
use vstd::prelude::*;
use crate::packet::{PrudpPacket, PacketView, VirtualPort, FramingError, parse_packet, framing_error};
use crate::connection::{PrudpSockAddr, Reaction, packet_views};
use crate::socket::{SocketImpl, has_peer, socket_step};

verus! {

/// The packets that a datagram holds, one after another, and the error that
/// stopped decoding, if one did. Packets before a malformed span are kept.
pub open spec fn parse_datagram(s: Seq<u8>) -> (Seq<PacketView>, Option<FramingError>)
    decreases s.len(),
{
    if s.len() == 0 {
        (Seq::empty(), None)
    } else {
        match parse_packet(s) {
            None => (Seq::empty(), Some(framing_error(s))),
            Some((p, n)) => if n == 0 || n > s.len() {
                (Seq::empty(), None)
            } else {
                let r = parse_datagram(s.skip(n as int));
                (seq![p] + r.0, r.1)
            },
        }
    }
}

/// Decodes the packets of a datagram (see `parse_datagram`).
pub fn decode_datagram(s: &[u8]) -> (r: (Vec<PrudpPacket>, Option<FramingError>))
    ensures
        packet_views(r.0@) == parse_datagram(s@).0,
        r.1 == parse_datagram(s@).1,
{
    let mut out: Vec<PrudpPacket> = Vec::new();
    let mut pos: usize = 0;
    assert(s@.skip(0) =~= s@);
    assert(packet_views(out@) + parse_datagram(s@).0 =~= parse_datagram(s@).0);
    while pos < s.len()
        invariant
            pos <= s@.len(),
            parse_datagram(s@) == (
                packet_views(out@) + parse_datagram(s@.skip(pos as int)).0,
                parse_datagram(s@.skip(pos as int)).1,
            ),
        decreases s@.len() - pos,
    {
        match PrudpPacket::decode(s, pos) {
            Ok((p, next)) => {
                let ghost t = s@.skip(pos as int);
                let ghost before = packet_views(out@);
                let ghost pv = p@;
                assert(t.skip((next - pos) as int) =~= s@.skip(next as int));
                out.push(p);
                assert(packet_views(out@) =~= before.push(pv));
                assert(before + parse_datagram(t).0 =~= packet_views(out@) + parse_datagram(s@.skip(next as int)).0);
                pos = next;
            },
            Err(e) => {
                assert(packet_views(out@) + Seq::<PacketView>::empty() =~= packet_views(out@));
                return (out, Some(e));
            },
        }
    }
    assert(s@.skip(pos as int).len() == 0);
    assert(packet_views(out@) + Seq::<PacketView>::empty() =~= packet_views(out@));
    (out, None)
}

/// Whether some socket of `ss` is registered on port `p`.
pub open spec fn has_port(ss: Seq<SocketImpl>, p: VirtualPort) -> bool {
    exists|i: int| 0 <= i < ss.len() && (#[trigger] ss[i]).virtual_port == p
}

/// No two sockets of `ss` share a virtual port.
pub open spec fn ports_unique(ss: Seq<SocketImpl>) -> bool {
    forall|i: int, j: int| 0 <= i < ss.len() && 0 <= j < ss.len() && i != j ==> ss[i].virtual_port != ss[j].virtual_port
}

/// Why a socket could not be registered.
#[derive(Clone, Copy, Debug, PartialEq, Eq, Structural)]
pub enum RouterError {
    PortInUse,
}

/// What became of one packet of a datagram.
pub struct Routed {
    /// The packet itself.
    pub packet: PrudpPacket,
    /// The port the packet was addressed to.
    pub destination: VirtualPort,
    /// The peer that sent it.
    pub peer: PrudpSockAddr,
    /// What its socket made of it; `None` where no socket has its port.
    pub reaction: Option<Reaction>,
}

/// One routing step, from socket list `s0` to `s1`, of the packet in `r`
/// from `ip`:`port`. The peer is the sender's address with the packet's
/// source port. Where a socket has the packet's destination port, that socket
/// alone processes it (see `socket_step`) and `r` holds its reaction; where
/// none has it, nothing changes and `r` holds no reaction.
pub open spec fn route_step(s0: Seq<SocketImpl>, s1: Seq<SocketImpl>, ip: u32, port: u16, r: Routed) -> bool {
    let dest = r.packet.header.destination_port;
    let peer = PrudpSockAddr { ip, port, virtual_port: r.packet.header.source_port };
    &&& r.destination == dest
    &&& r.peer == peer
    &&& s1.len() == s0.len()
    &&& (r.reaction is Some <==> has_port(s0, dest))
    &&& forall|i: int| 0 <= i < s0.len() ==> (#[trigger] s1[i]).virtual_port == s0[i].virtual_port
    &&& forall|i: int| 0 <= i < s0.len() && s0[i].virtual_port != dest ==> (#[trigger] s1[i]) == s0[i]
    &&& forall|i: int|
        0 <= i < s0.len() && s0[i].virtual_port == dest ==> socket_step(
            s0[i],
            #[trigger] s1[i],
            peer,
            r.packet,
            r.reaction.unwrap(),
        )
}

/// The results `rs` came from routing their packets one after another, taking
/// the socket list from `s0` to `s1`.
pub open spec fn routed_in_order(s0: Seq<SocketImpl>, s1: Seq<SocketImpl>, ip: u32, port: u16, rs: Seq<Routed>) -> bool {
    exists|states: Seq<Seq<SocketImpl>>| {
        &&& states.len() == rs.len() + 1
        &&& states[0] == s0
        &&& states[rs.len() as int] == s1
        &&& forall|j: int| 0 <= j < rs.len() ==> route_step(#[trigger] states[j], states[j + 1], ip, port, rs[j])
    }
}

/// The sockets that share one transport.
pub struct Router {
    pub sockets: Vec<SocketImpl>,
}

impl Router {
    pub open spec fn wf(&self) -> bool {
        &&& ports_unique(self.sockets@)
        &&& forall|i: int| 0 <= i < self.sockets@.len() ==> (#[trigger] self.sockets@[i]).wf()
    }

    pub fn new() -> (r: Router)
        ensures
            r.wf(),
            r.sockets@.len() == 0,
    {
        Router { sockets: Vec::new() }
    }

    /// The index of the socket registered on `port`, if any.
    pub fn find_socket(&self, port: VirtualPort) -> (r: Option<usize>)
        ensures
            match r {
                Some(i) => i < self.sockets@.len() && self.sockets@[i as int].virtual_port == port,
                None => !has_port(self.sockets@, port),
            },
    {
        let mut i: usize = 0;
        while i < self.sockets.len()
            invariant
                i <= self.sockets@.len(),
                forall|j: int| 0 <= j < i ==> (#[trigger] self.sockets@[j]).virtual_port != port,
            decreases self.sockets@.len() - i,
        {
            if self.sockets[i].virtual_port == port {
                return Some(i);
            }
            i = i + 1;
        }
        None
    }

    /// Registers `socket`; fails, changing nothing, where its port is taken.
    pub fn add_socket(&mut self, socket: SocketImpl) -> (r: Result<(), RouterError>)
        requires
            old(self).wf(),
            socket.wf(),
        ensures
            final(self).wf(),
            r is Ok <==> !has_port(old(self).sockets@, socket.virtual_port),
            r is Ok ==> final(self).sockets@ == old(self).sockets@.push(socket),
            r is Err ==> final(self).sockets@ == old(self).sockets@,
    {
        if self.find_socket(socket.virtual_port).is_some() {
            return Err(RouterError::PortInUse);
        }
        let ghost before = self.sockets@;
        self.sockets.push(socket);
        proof {
            let ss = self.sockets@;
            assert forall|i: int, j: int| 0 <= i < ss.len() && 0 <= j < ss.len() && i != j
                implies ss[i].virtual_port != ss[j].virtual_port by {
                if i < before.len() {
                    assert(ss[i] == before[i]);
                }
                if j < before.len() {
                    assert(ss[j] == before[j]);
                }
            }
            assert forall|i: int| 0 <= i < ss.len() implies (#[trigger] ss[i]).wf() by {
                if i < before.len() {
                    assert(ss[i] == before[i]);
                }
            }
        }
        Ok(())
    }

    /// Unregisters the socket on `port`; does nothing where there is none.
    pub fn remove_socket(&mut self, port: VirtualPort)
        requires
            old(self).wf(),
        ensures
            final(self).wf(),
            !has_port(final(self).sockets@, port),
            forall|p: VirtualPort| p != port ==> (has_port(final(self).sockets@, p) <==> has_port(old(self).sockets@, p)),
            !has_port(old(self).sockets@, port) ==> final(self).sockets@ == old(self).sockets@,
    {
        match self.find_socket(port) {
            None => {},
            Some(i) => {
                let ghost before = self.sockets@;
                let _removed = self.sockets.remove(i);
                proof {
                    let ss = self.sockets@;
                    assert(ss =~= before.remove(i as int));
                    assert forall|a: int, b: int| 0 <= a < ss.len() && 0 <= b < ss.len() && a != b
                        implies ss[a].virtual_port != ss[b].virtual_port by {
                        let a2 = if a < i { a } else { a + 1 };
                        let b2 = if b < i { b } else { b + 1 };
                        assert(ss[a] == before[a2]);
                        assert(ss[b] == before[b2]);
                    }
                    assert forall|a: int| 0 <= a < ss.len() implies (#[trigger] ss[a]).wf() by {
                        let a2 = if a < i { a } else { a + 1 };
                        assert(ss[a] == before[a2]);
                    }
                    assert forall|p: VirtualPort| p != port implies (has_port(ss, p) <==> has_port(before, p)) by {
                        if has_port(ss, p) {
                            let a = choose|a: int| 0 <= a < ss.len() && (#[trigger] ss[a]).virtual_port == p;
                            let a2 = if a < i { a } else { a + 1 };
                            assert(ss[a] == before[a2]);
                        }
                        if has_port(before, p) {
                            let a = choose|a: int| 0 <= a < before.len() && (#[trigger] before[a]).virtual_port == p;
                            assert(a != i);
                            let a2 = if a < i { a } else { a - 1 };
                            assert(ss[a2] == before[a]);
                        }
                    }
                    if has_port(ss, port) {
                        let a = choose|a: int| 0 <= a < ss.len() && (#[trigger] ss[a]).virtual_port == port;
                        let a2 = if a < i { a } else { a + 1 };
                        assert(ss[a] == before[a2]);
                        assert(a2 != i);
                    }
                }
            },
        }
    }

    /// Hands a packet from `ip`:`port` to the socket on its destination port
    /// (see `route_step`).
    pub fn route_packet(&mut self, ip: u32, port: u16, packet: PrudpPacket) -> (r: Routed)
        requires
            old(self).wf(),
        ensures
            final(self).wf(),
            r.packet == packet,
            route_step(old(self).sockets@, final(self).sockets@, ip, port, r),
    {
        let peer = PrudpSockAddr { ip, port, virtual_port: packet.header.source_port };
        let dest = packet.header.destination_port;
        match self.find_socket(dest) {
            None => {
                assert forall|a: int| 0 <= a < self.sockets@.len() implies self.sockets@[a].virtual_port != dest by {
                    if self.sockets@[a].virtual_port == dest {
                        assert(has_port(self.sockets@, dest));
                    }
                }
                Routed { destination: dest, peer, packet, reaction: None }
            },
            Some(i) => {
                let ghost before = self.sockets@;
                assert(before[i as int].wf());
                let mut s = self.sockets.remove(i);
                let reaction = s.process_packet(peer, &packet);
                self.sockets.insert(i, s);
                proof {
                    let ss = self.sockets@;
                    assert(ss =~= before.update(i as int, s));
                    assert forall|a: int, b: int| 0 <= a < ss.len() && 0 <= b < ss.len() && a != b
                        implies ss[a].virtual_port != ss[b].virtual_port by {
                        assert(ss[a].virtual_port == before[a].virtual_port);
                        assert(ss[b].virtual_port == before[b].virtual_port);
                    }
                    assert forall|a: int| 0 <= a < ss.len() implies (#[trigger] ss[a]).wf() by {
                        if a != i {
                            assert(ss[a] == before[a]);
                        }
                    }
                    assert forall|a: int| 0 <= a < before.len() && before[a].virtual_port == dest
                        implies a == i by {
                        if a != i {
                            assert(before[a].virtual_port != before[i as int].virtual_port);
                        }
                    }
                }
                Routed { destination: dest, peer, packet, reaction: Some(reaction) }
            },
        }
    }

    /// Decodes a datagram from `ip`:`port` and routes each of its packets in
    /// turn, as `route_packet` does. Returns what became of each, and the
    /// framing error that ended decoding early, if one did: the packets before
    /// a malformed span are routed as if it were absent.
    pub fn process_datagram(&mut self, ip: u32, port: u16, datagram: &[u8]) -> (r: (Vec<Routed>, Option<FramingError>))
        requires
            old(self).wf(),
        ensures
            final(self).wf(),
            r.0@.len() == parse_datagram(datagram@).0.len(),
            forall|k: int| 0 <= k < r.0@.len() ==> (#[trigger] r.0@[k]).packet@ == parse_datagram(datagram@).0[k],
            r.1 == parse_datagram(datagram@).1,
            routed_in_order(old(self).sockets@, final(self).sockets@, ip, port, r.0@),
    {
        let (mut packets, err) = decode_datagram(datagram);
        let ghost vs = packet_views(packets@);
        let mut out: Vec<Routed> = Vec::new();
        let ghost mut states: Seq<Seq<SocketImpl>> = seq![self.sockets@];
        let ghost n = packets@.len();
        while packets.len() > 0
            invariant
                vs == parse_datagram(datagram@).0,
                n == vs.len(),
                out@.len() + packets@.len() == n,
                forall|j: int| 0 <= j < packets@.len() ==> (#[trigger] packets@[j])@ == vs[out@.len() + j],
                forall|j: int| 0 <= j < out@.len() ==> (#[trigger] out@[j]).packet@ == vs[j],
                self.wf(),
                states.len() == out@.len() + 1,
                states[0] == old(self).sockets@,
                states[out@.len() as int] == self.sockets@,
                forall|j: int| 0 <= j < out@.len() ==> route_step(#[trigger] states[j], states[j + 1], ip, port, out@[j]),
            decreases packets@.len(),
        {
            let ghost k = out@.len() as int;
            let ghost pv = packets@[0]@;
            let ghost before = self.sockets@;
            let ghost pk0 = packets@;
            let ghost st0 = states;
            let p = packets.remove(0);
            let routed = self.route_packet(ip, port, p);
            proof {
                states = states.push(self.sockets@);
            }
            out.push(routed);
            assert forall|j: int| 0 <= j < packets@.len() implies (#[trigger] packets@[j])@ == vs[out@.len() + j] by {
                assert(packets@[j] == pk0[j + 1]);
            }
            assert forall|j: int| 0 <= j < out@.len() implies route_step(#[trigger] states[j], states[j + 1], ip, port, out@[j]) by {
                if j < k {
                    assert(states[j] == st0[j] && states[j + 1] == st0[j + 1]);
                }
            }
        }
        proof {
            assert(routed_in_order(old(self).sockets@, self.sockets@, ip, port, out@));
        }
        (out, err)
    }
}

} // verus!
