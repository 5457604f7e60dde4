//! The per-peer connection and its state machine.
use vstd::prelude::*;
use crate::bytes::{le16, le32, u16_of, push_u16, push_u32, read_u16};
use crate::packet::{
    PrudpPacket, PrudpHeader, PacketView, PacketOption, OptionView, VirtualPort, TypesAndFlags,
    packet_wf, options_bytes, SYN, CONNECT, DATA, ACK, RELIABLE, NEED_ACK, HAS_SIZE, MULTI_ACK,
};
use crate::signature::{md5_of, hmac_md5_of, md5_digest, hmac_md5, packet_signature};
use crate::reorder::{
    ReliableEntry, entries, payloads, queue_wf, settled, lemma_duplicate_changes_nothing, sorted_insert, deliver, in_window, holds_id,
    insert_reliable, deliver_in_order, next_seq,
};

verus! {

/// A peer: its IPv4 address and UDP port, and the virtual port it speaks from.
#[derive(Clone, Copy, Debug, PartialEq, Eq, Hash, Structural)]
pub struct PrudpSockAddr {
    pub ip: u32,
    pub port: u16,
    pub virtual_port: VirtualPort,
}

/// The bytes that identify a peer in its connection signature.
pub open spec fn address_bytes(a: PrudpSockAddr) -> Seq<u8> {
    le32(a.ip) + le16(a.port) + seq![a.virtual_port.0]
}

/// The signature the server chooses for a peer: the HMAC-MD5 of the peer's
/// address, keyed with the MD5 of the access key.
pub open spec fn connection_signature_of(a: PrudpSockAddr, access_key: Seq<u8>) -> Seq<u8> {
    hmac_md5_of(md5_of(access_key), address_bytes(a))
}

impl PrudpSockAddr {
    pub fn calculate_connection_signature(&self, access_key: &[u8]) -> (r: Vec<u8>)
        ensures
            r@ == connection_signature_of(*self, access_key@),
            r@.len() == 16,
    {
        let mut msg: Vec<u8> = Vec::new();
        push_u32(&mut msg, self.ip);
        push_u16(&mut msg, self.port);
        msg.push(self.virtual_port.0);
        assert(msg@ =~= address_bytes(*self));
        let key = md5_digest(access_key);
        hmac_md5(key.as_slice(), msg.as_slice())
    }
}

/// Sixteen zero bytes: a signature that was never set.
pub open spec fn zero_signature() -> Seq<u8> {
    Seq::new(16, |i: int| 0u8)
}

pub fn zeros16() -> (r: Vec<u8>)
    ensures
        r@ == zero_signature(),
{
    let mut r: Vec<u8> = Vec::new();
    let mut i: usize = 0;
    while i < 16
        invariant
            i <= 16,
            r@ == Seq::new(i as nat, |j: int| 0u8),
        decreases 16 - i,
    {
        r.push(0);
        i = i + 1;
        assert(r@ =~= Seq::new(i as nat, |j: int| 0u8));
    }
    r
}

/// The header of a reply to `h`: the ports swapped, type `t`, flags `f`, the
/// rest copied.
pub open spec fn response_header(h: PrudpHeader, t: u16, f: u16) -> PrudpHeader {
    PrudpHeader {
        source_port: h.destination_port,
        destination_port: h.source_port,
        types_and_flags: TypesAndFlags((f * 16 + t) as u16),
        session_id: h.session_id,
        substream_id: h.substream_id,
        sequence_id: h.sequence_id,
    }
}

/// A packet with a zero signature, no options and no payload.
pub open spec fn bare_packet(h: PrudpHeader) -> PacketView {
    PacketView { header: h, signature: zero_signature(), options: Seq::empty(), payload: Seq::empty() }
}

impl PrudpPacket {
    /// A reply skeleton: ports swapped, same type, no flags, session and ids
    /// copied, no options, no payload.
    pub fn base_response_packet(&self) -> (r: PrudpPacket)
        ensures
            r@ == bare_packet(response_header(self.header, self.header.types_and_flags.types(), 0)),
    {
        let t = self.header.types_and_flags.get_types();
        let r = PrudpPacket {
            header: PrudpHeader {
                source_port: self.header.destination_port,
                destination_port: self.header.source_port,
                types_and_flags: TypesAndFlags::from_parts(t, 0),
                session_id: self.header.session_id,
                substream_id: self.header.substream_id,
                sequence_id: self.header.sequence_id,
            },
            signature: zeros16(),
            options: Vec::new(),
            payload: Vec::new(),
        };
        assert(r@.options =~= Seq::<OptionView>::empty());
        assert(r@.payload =~= Seq::<u8>::empty());
        r
    }

    /// A bare acknowledgement of this packet: ports swapped, same type, the
    /// ACK flag alone, its sequence id echoed.
    pub fn base_acknowledgement_packet(&self) -> (r: PrudpPacket)
        ensures
            r@ == bare_packet(response_header(self.header, self.header.types_and_flags.types(), ACK)),
    {
        let mut r = self.base_response_packet();
        r.header.types_and_flags = TypesAndFlags::from_parts(self.header.types_and_flags.get_types(), ACK);
        r
    }
}

/// The options of a SYN reply that answer the SYN's options: the supported
/// functions masked to the one the server has, the substream limit echoed.
pub open spec fn syn_answer_options(os: Seq<OptionView>) -> Seq<OptionView>
    decreases os.len(),
{
    if os.len() == 0 {
        Seq::empty()
    } else {
        syn_answer_options(os.drop_last()) + match os.last() {
            OptionView::SupportedFunctions(f) => seq![OptionView::SupportedFunctions(f & 0x04)],
            OptionView::MaximumSubstreamId(x) => seq![OptionView::MaximumSubstreamId(x)],
            _ => Seq::empty(),
        }
    }
}

/// The options of a CONNECT reply that answer the CONNECT's options: the
/// supported functions and the substream limit echoed.
pub open spec fn connect_answer_options(os: Seq<OptionView>) -> Seq<OptionView>
    decreases os.len(),
{
    if os.len() == 0 {
        Seq::empty()
    } else {
        connect_answer_options(os.drop_last()) + match os.last() {
            OptionView::SupportedFunctions(f) => seq![OptionView::SupportedFunctions(f)],
            OptionView::MaximumSubstreamId(x) => seq![OptionView::MaximumSubstreamId(x)],
            _ => Seq::empty(),
        }
    }
}

/// The last connection signature among `os`, or `dflt` where there is none.
pub open spec fn offered_signature(os: Seq<OptionView>, dflt: Seq<u8>) -> Seq<u8>
    decreases os.len(),
{
    if os.len() == 0 {
        dflt
    } else {
        match os.last() {
            OptionView::ConnectionSignature(s) => s,
            _ => offered_signature(os.drop_last(), dflt),
        }
    }
}

/// `p` without the ids that `ids` holds, in its order.
pub open spec fn without_ids(p: Seq<u16>, ids: Seq<u16>) -> Seq<u16>
    decreases p.len(),
{
    if p.len() == 0 {
        Seq::empty()
    } else if ids.contains(p.last()) {
        without_ids(p.drop_last(), ids)
    } else {
        without_ids(p.drop_last(), ids).push(p.last())
    }
}

/// The ids that an aggregate acknowledgement's payload names: substream,
/// count, base id, then `count` further ids.
pub open spec fn multi_ack_ids(s: Seq<u8>) -> Option<Seq<u16>> {
    if s.len() < 4 || s.len() != 4 + 2 * s[1] {
        None
    } else {
        Some(
            seq![u16_of(s[2], s[3])] + Seq::new(
                s[1] as nat,
                |i: int| u16_of(s[4 + 2 * i], s[5 + 2 * i]),
            ),
        )
    }
}

/// What happened to an inbound packet.
#[derive(Clone, Copy, Debug, PartialEq, Eq, Structural)]
pub enum PacketEvent {
    /// A SYN was answered.
    SynAnswered,
    /// A SYN came after one was answered already; it gets no answer.
    SynRepeated,
    /// A CONNECT that carried the peer's signature was answered.
    Connected,
    /// A CONNECT without the peer's signature was answered all the same.
    ConnectedWithoutSignature,
    /// A CONNECT without the peer's signature was refused (strict mode).
    MissingSignatureRejected,
    /// A reliable DATA packet was buffered.
    ReliableBuffered,
    /// A reliable DATA packet repeated an id that was buffered or delivered.
    DuplicateDropped,
    /// An unreliable DATA packet's payload was handed on as it came.
    UnreliableReceived,
    /// An acknowledgement cleared one pending send.
    Acknowledged,
    /// An aggregate acknowledgement cleared a batch of pending sends.
    MultiAcknowledged,
    /// An aggregate acknowledgement whose payload is malformed.
    MalformedMultiAck,
    /// A packet type that is not handled here.
    UnsupportedType,
    /// A packet whose signature does not verify (strict mode).
    BadSignature,
}

/// What processing an inbound packet produced.
pub struct Reaction {
    pub event: PacketEvent,
    /// Signed packets to send back to the peer.
    pub responses: Vec<PrudpPacket>,
    /// Payloads handed on to the message handler, in order.
    pub delivered: Vec<Vec<u8>>,
    /// Whether this packet completed the handshake.
    pub newly_established: bool,
}

/// A connection to one peer.
pub struct Connection {
    pub sock_addr: PrudpSockAddr,
    pub id: u64,
    /// The signature this server chose for the peer, set by SYN.
    pub server_signature: Vec<u8>,
    /// The signature the peer offered, captured by CONNECT.
    pub client_signature: Vec<u8>,
    pub session_id: u8,
    /// The id that the next in-order reliable packet from the peer carries.
    pub reliable_client_counter: u16,
    /// The id that the next reliable packet to the peer carries.
    pub reliable_server_counter: u16,
    pub reliable_client_queue: Vec<ReliableEntry>,
    /// Ids of reliable packets sent to the peer and not yet acknowledged.
    pub pending_acks: Vec<u16>,
    pub established: bool,
    /// Whether a SYN from the peer was answered; later ones get no answer.
    pub syn_answered: bool,
}

impl Connection {
    /// The connection is well formed when its reorder buffer is, and nothing
    /// in it is due for delivery.
    pub open spec fn wf(&self) -> bool {
        &&& queue_wf(entries(self.reliable_client_queue@), self.reliable_client_counter)
        &&& settled(entries(self.reliable_client_queue@), self.reliable_client_counter)
    }

    /// `c` is a connection to `sock_addr` with identifier `id` that has seen
    /// no packet yet.
    pub open spec fn is_fresh(c: Connection, sock_addr: PrudpSockAddr, id: u64) -> bool {
        &&& c.wf()
        &&& c.sock_addr == sock_addr
        &&& c.id == id
        &&& c.server_signature@ == zero_signature()
        &&& c.client_signature@ == zero_signature()
        &&& c.session_id == 0
        &&& c.reliable_client_counter == 0
        &&& c.reliable_server_counter == 0
        &&& c.reliable_client_queue@.len() == 0
        &&& c.pending_acks@.len() == 0
        &&& !c.established
        &&& !c.syn_answered
    }

    /// A fresh connection to `sock_addr` with identifier `id`.
    pub fn new(sock_addr: PrudpSockAddr, id: u64) -> (r: Connection)
        ensures
            Connection::is_fresh(r, sock_addr, id),
    {
        Connection {
            sock_addr,
            id,
            server_signature: zeros16(),
            client_signature: zeros16(),
            session_id: 0,
            reliable_client_counter: 0,
            reliable_server_counter: 0,
            reliable_client_queue: Vec::new(),
            pending_acks: Vec::new(),
            established: false,
            syn_answered: false,
        }
    }
}


/// The views of a list of options.
pub open spec fn option_views(v: Seq<PacketOption>) -> Seq<OptionView> {
    v.map_values(|o: PacketOption| o@)
}

/// Appends to `out` the answers to the SYN options `opts`.
fn answer_syn_options(opts: &Vec<PacketOption>, out: &mut Vec<PacketOption>)
    ensures
        option_views(final(out)@) == option_views(old(out)@) + syn_answer_options(option_views(opts@)),
{
    let ghost vs = option_views(opts@);
    let mut i: usize = 0;
    while i < opts.len()
        invariant
            i <= opts@.len(),
            vs == option_views(opts@),
            option_views(out@) == option_views(old(out)@) + syn_answer_options(vs.take(i as int)),
        decreases opts@.len() - i,
    {
        let ghost before = option_views(out@);
        match &opts[i] {
            PacketOption::SupportedFunctions(f) => {
                let o = PacketOption::SupportedFunctions(*f & 0x04);
                out.push(o);
                assert(option_views(out@) =~= before.push(o@));
            },
            PacketOption::MaximumSubstreamId(x) => {
                let o = PacketOption::MaximumSubstreamId(*x);
                out.push(o);
                assert(option_views(out@) =~= before.push(o@));
            },
            _ => {
                assert(option_views(out@) =~= before);
            },
        }
        assert(vs.take(i + 1).drop_last() =~= vs.take(i as int));
        assert(vs.take(i + 1).last() == vs[i as int]);
        i = i + 1;
        assert(option_views(out@) =~= option_views(old(out)@) + syn_answer_options(vs.take(i as int)));
    }
    assert(vs.take(i as int) =~= vs);
}

/// Appends to `out` the answers to the CONNECT options `opts`.
fn answer_connect_options(opts: &Vec<PacketOption>, out: &mut Vec<PacketOption>)
    ensures
        option_views(final(out)@) == option_views(old(out)@) + connect_answer_options(option_views(opts@)),
{
    let ghost vs = option_views(opts@);
    let mut i: usize = 0;
    while i < opts.len()
        invariant
            i <= opts@.len(),
            vs == option_views(opts@),
            option_views(out@) == option_views(old(out)@) + connect_answer_options(vs.take(i as int)),
        decreases opts@.len() - i,
    {
        let ghost before = option_views(out@);
        match &opts[i] {
            PacketOption::SupportedFunctions(f) => {
                let o = PacketOption::SupportedFunctions(*f);
                out.push(o);
                assert(option_views(out@) =~= before.push(o@));
            },
            PacketOption::MaximumSubstreamId(x) => {
                let o = PacketOption::MaximumSubstreamId(*x);
                out.push(o);
                assert(option_views(out@) =~= before.push(o@));
            },
            _ => {
                assert(option_views(out@) =~= before);
            },
        }
        assert(vs.take(i + 1).drop_last() =~= vs.take(i as int));
        assert(vs.take(i + 1).last() == vs[i as int]);
        i = i + 1;
        assert(option_views(out@) =~= option_views(old(out)@) + connect_answer_options(vs.take(i as int)));
    }
    assert(vs.take(i as int) =~= vs);
}

/// The last connection signature among `opts`, or `dflt`.
fn find_offered_signature(opts: &Vec<PacketOption>, dflt: Vec<u8>) -> (r: Vec<u8>)
    ensures
        r@ == offered_signature(option_views(opts@), dflt@),
{
    let ghost vs = option_views(opts@);
    let mut cur = dflt;
    let mut i: usize = 0;
    while i < opts.len()
        invariant
            i <= opts@.len(),
            vs == option_views(opts@),
            cur@ == offered_signature(vs.take(i as int), dflt@),
        decreases opts@.len() - i,
    {
        match &opts[i] {
            PacketOption::ConnectionSignature(sig) => {
                let c = crate::bytes::copy_range(sig.as_slice(), 0, sig.len());
                assert(c@ =~= sig@);
                cur = c;
            },
            _ => {},
        }
        assert(vs.take(i + 1).drop_last() =~= vs.take(i as int));
        assert(vs.take(i + 1).last() == vs[i as int]);
        i = i + 1;
    }
    assert(vs.take(i as int) =~= vs);
    cur
}

/// Whether `ids` holds `x`.
fn contains_id(ids: &[u16], x: u16) -> (r: bool)
    ensures
        r == ids@.contains(x),
{
    let mut i: usize = 0;
    while i < ids.len()
        invariant
            i <= ids@.len(),
            forall|j: int| 0 <= j < i ==> ids@[j] != x,
        decreases ids@.len() - i,
    {
        if ids[i] == x {
            return true;
        }
        i = i + 1;
    }
    false
}

/// Drops from `pending` every id that `ids` holds, keeping the order of the rest.
pub fn remove_acknowledged(pending: &mut Vec<u16>, ids: &[u16])
    ensures
        final(pending)@ == without_ids(old(pending)@, ids@),
{
    let ghost p0 = pending@;
    let mut kept: Vec<u16> = Vec::new();
    let mut i: usize = 0;
    while i < pending.len()
        invariant
            i <= p0.len(),
            pending@ == p0,
            kept@ == without_ids(p0.take(i as int), ids@),
        decreases p0.len() - i,
    {
        let x = pending[i];
        assert(p0.take(i + 1).drop_last() =~= p0.take(i as int));
        assert(p0.take(i + 1).last() == x);
        if !contains_id(ids, x) {
            kept.push(x);
        }
        i = i + 1;
    }
    assert(p0.take(i as int) =~= p0);
    *pending = kept;
}

/// The ids that an aggregate acknowledgement's payload names (see `multi_ack_ids`).
pub fn decode_multi_ack(s: &[u8]) -> (r: Option<Vec<u16>>)
    ensures
        match r {
            Some(v) => multi_ack_ids(s@) == Some(v@),
            None => multi_ack_ids(s@) is None,
        },
{
    if s.len() < 4 || s.len() != 4 + 2 * (s[1] as usize) {
        return None;
    }
    let count = s[1] as usize;
    let mut v: Vec<u16> = Vec::new();
    v.push(read_u16(s, 2));
    let ghost f = |i: int| u16_of(s@[4 + 2 * i], s@[5 + 2 * i]);
    let mut i: usize = 0;
    while i < count
        invariant
            i <= count,
            count == s@[1] as usize,
            s@.len() == 4 + 2 * count,
            f == (|i: int| u16_of(s@[4 + 2 * i], s@[5 + 2 * i])),
            v@ == seq![u16_of(s@[2], s@[3])] + Seq::new(i as nat, f),
        decreases count - i,
    {
        v.push(read_u16(s, 4 + 2 * i));
        i = i + 1;
        assert(v@ =~= seq![u16_of(s@[2], s@[3])] + Seq::new(i as nat, f));
    }
    assert(Seq::new(count as nat, f) =~= Seq::new(s@[1] as nat, |i: int| u16_of(s@[4 + 2 * i], s@[5 + 2 * i])));
    Some(v)
}


/// `v` carrying signature `sig`.
pub open spec fn with_signature(v: PacketView, sig: Seq<u8>) -> PacketView {
    PacketView { signature: sig, ..v }
}

/// The unsigned reply to SYN `p`, offering `server_sig`.
pub open spec fn syn_reply(p: PacketView, server_sig: Seq<u8>) -> PacketView {
    PacketView {
        header: response_header(p.header, SYN, ACK | HAS_SIZE),
        signature: zero_signature(),
        options: seq![OptionView::ConnectionSignature(server_sig)] + syn_answer_options(p.options),
        payload: Seq::empty(),
    }
}

/// The unsigned reply to CONNECT `p`: sequence id 1, a zero signature option
/// and the negotiated options.
pub open spec fn connect_reply(p: PacketView) -> PacketView {
    PacketView {
        header: PrudpHeader { sequence_id: 1, ..response_header(p.header, CONNECT, ACK | HAS_SIZE) },
        signature: zero_signature(),
        options: seq![OptionView::ConnectionSignature(zero_signature())] + connect_answer_options(p.options),
        payload: Seq::empty(),
    }
}

/// The unsigned acknowledgement of `p`.
pub open spec fn ack_reply(p: PacketView) -> PacketView {
    bare_packet(response_header(p.header, p.header.types_and_flags.types(), ACK))
}

/// The views of the packets in `v`.
pub open spec fn packet_views(v: Seq<PrudpPacket>) -> Seq<PacketView> {
    v.map_values(|p: PrudpPacket| p@)
}

/// The connection signature a peer signs packet `p` with: none for a SYN,
/// otherwise the one the server gave it.
pub open spec fn expected_connection_signature(c: &Connection, p: PacketView) -> Seq<u8> {
    if p.header.types_and_flags.types() == SYN {
        Seq::empty()
    } else {
        c.server_signature@
    }
}

/// Whether packet `p` is taken at all: always in permissive mode; in strict
/// mode only when it carries the signature its peer should have computed.
pub open spec fn signature_accepted(c: &Connection, p: PacketView, access_key: Seq<u8>, strict: bool) -> bool {
    !strict || p.signature == packet_signature(p, access_key, Seq::empty(), expected_connection_signature(c, p))
}

/// `c1` has the handshake state of `c0`.
pub open spec fn keeps_handshake(c0: Connection, c1: Connection) -> bool {
    &&& c1.server_signature@ == c0.server_signature@
    &&& c1.client_signature@ == c0.client_signature@
    &&& c1.session_id == c0.session_id
    &&& c1.established == c0.established
    &&& c1.syn_answered == c0.syn_answered
}

/// `c1` has the sequence state of `c0`: buffer, both counters, pending sends.
pub open spec fn keeps_streams(c0: Connection, c1: Connection) -> bool {
    &&& c1.reliable_client_queue@ == c0.reliable_client_queue@
    &&& c1.reliable_client_counter == c0.reliable_client_counter
    &&& c1.reliable_server_counter == c0.reliable_server_counter
    &&& c1.pending_acks@ == c0.pending_acks@
}

/// What processing packet `p` with `key` does: `c0` is the connection
/// before, `c1` after, `r` the reaction (see `Connection::process_packet`).
pub open spec fn reaction_to(c0: Connection, c1: Connection, p: PrudpPacket, key: Seq<u8>, strict: bool, r: Reaction) -> bool {
    &&& (c1.sock_addr == c0.sock_addr)
    &&& (c1.id == c0.id)
    &&& (!signature_accepted(&c0, p@, key, strict) ==> {
        &&& r.event == PacketEvent::BadSignature
        &&& keeps_handshake(c0, c1)
        &&& keeps_streams(c0, c1)
        &&& c1.server_signature@ == c0.server_signature@
        &&& c1.client_signature@ == c0.client_signature@
        &&& c1.session_id == c0.session_id
        &&& c1.established == c0.established
        &&& c1.reliable_client_queue@ == c0.reliable_client_queue@
        &&& c1.reliable_client_counter == c0.reliable_client_counter
        &&& c1.reliable_server_counter == c0.reliable_server_counter
        &&& c1.pending_acks@ == c0.pending_acks@
        &&& r.responses@.len() == 0 && r.delivered@.len() == 0 && !r.newly_established
    })
    &&& (signature_accepted(&c0, p@, key, strict) && p.header.types_and_flags.has_flag(MULTI_ACK) ==> {
        &&& keeps_handshake(c0, c1)
        &&& c1.reliable_server_counter == c0.reliable_server_counter
        &&& c1.reliable_client_queue@ == c0.reliable_client_queue@
        &&& c1.reliable_client_counter == c0.reliable_client_counter
        &&& r.responses@.len() == 0 && r.delivered@.len() == 0 && !r.newly_established
        &&& match multi_ack_ids(p.payload@) {
            Some(ids) => r.event == PacketEvent::MultiAcknowledged
                && c1.pending_acks@ == without_ids(c0.pending_acks@, ids),
            None => r.event == PacketEvent::MalformedMultiAck
                && c1.pending_acks@ == c0.pending_acks@,
        }
    })
    &&& (signature_accepted(&c0, p@, key, strict) && !p.header.types_and_flags.has_flag(MULTI_ACK) && p.header.types_and_flags.has_flag(ACK) ==> {
        &&& r.event == PacketEvent::Acknowledged
        &&& keeps_handshake(c0, c1)
        &&& c1.reliable_server_counter == c0.reliable_server_counter
        &&& c1.pending_acks@ == without_ids(c0.pending_acks@, seq![p.header.sequence_id])
        &&& c1.reliable_client_queue@ == c0.reliable_client_queue@
        &&& c1.reliable_client_counter == c0.reliable_client_counter
        &&& r.responses@.len() == 0 && r.delivered@.len() == 0 && !r.newly_established
    })
    &&& (signature_accepted(&c0, p@, key, strict) && !p.header.types_and_flags.has_flag(MULTI_ACK) && !p.header.types_and_flags.has_flag(ACK)
        && p.header.types_and_flags.types() == SYN ==> {
        let sig = connection_signature_of(c0.sock_addr, key);
        if c0.syn_answered {
            &&& r.event == PacketEvent::SynRepeated
            &&& keeps_handshake(c0, c1)
            &&& keeps_streams(c0, c1)
            &&& r.responses@.len() == 0 && r.delivered@.len() == 0 && !r.newly_established
        } else {
        &&& r.event == PacketEvent::SynAnswered
        &&& c1.syn_answered
        &&& c1.session_id == c0.session_id
        &&& c1.established == c0.established
        &&& c1.reliable_server_counter == c0.reliable_server_counter
        &&& c1.server_signature@ == sig
        &&& c1.client_signature@ == c0.client_signature@
        &&& c1.reliable_client_queue@ == c0.reliable_client_queue@
        &&& c1.reliable_client_counter == c0.reliable_client_counter
        &&& c1.pending_acks@ == c0.pending_acks@
        &&& r.delivered@.len() == 0 && !r.newly_established
        &&& packet_views(r.responses@) == seq![with_signature(
            syn_reply(p@, sig),
            packet_signature(syn_reply(p@, sig), key, Seq::empty(), Seq::empty()),
        )]
        }
    })
    &&& (signature_accepted(&c0, p@, key, strict) && !p.header.types_and_flags.has_flag(MULTI_ACK) && !p.header.types_and_flags.has_flag(ACK)
        && p.header.types_and_flags.types() == CONNECT ==> {
        let csig = offered_signature(p@.options, c0.client_signature@);
        if strict && csig == zero_signature() {
            &&& r.event == PacketEvent::MissingSignatureRejected
            &&& keeps_handshake(c0, c1)
            &&& keeps_streams(c0, c1)
            &&& c1.client_signature@ == c0.client_signature@
            &&& c1.session_id == c0.session_id
            &&& c1.established == c0.established
            &&& c1.reliable_client_queue@ == c0.reliable_client_queue@
            &&& c1.reliable_client_counter == c0.reliable_client_counter
            &&& r.responses@.len() == 0 && r.delivered@.len() == 0 && !r.newly_established
        } else {
            &&& c1.syn_answered == c0.syn_answered
            &&& r.event == (if csig == zero_signature() {
                PacketEvent::ConnectedWithoutSignature
            } else {
                PacketEvent::Connected
            })
            &&& c1.client_signature@ == csig
            &&& c1.server_signature@ == c0.server_signature@
            &&& c1.session_id == p.header.session_id
            &&& c1.reliable_client_counter == next_seq(p.header.sequence_id)
            &&& c1.reliable_server_counter == 2
            &&& c1.reliable_client_queue@.len() == 0
            &&& c1.pending_acks@.len() == 0
            &&& c1.established
            &&& r.newly_established == !c0.established
            &&& r.delivered@.len() == 0
            &&& packet_views(r.responses@) == seq![with_signature(
                connect_reply(p@),
                packet_signature(connect_reply(p@), key, Seq::empty(), csig),
            )]
        }
    })
    &&& (signature_accepted(&c0, p@, key, strict) && !p.header.types_and_flags.has_flag(MULTI_ACK) && !p.header.types_and_flags.has_flag(ACK)
        && p.header.types_and_flags.types() == DATA && p.header.types_and_flags.has_flag(RELIABLE) ==> {
        let q0 = entries(c0.reliable_client_queue@);
        let ctr = c0.reliable_client_counter;
        let e = (p.header.sequence_id, p.payload@);
        let fresh = in_window(e.0, ctr) && !holds_id(q0, e.0);
        let q1 = if fresh { sorted_insert(q0, ctr, e) } else { q0 };
        &&& keeps_handshake(c0, c1)
        &&& c1.reliable_server_counter == c0.reliable_server_counter
        &&& r.event == (if fresh { PacketEvent::ReliableBuffered } else { PacketEvent::DuplicateDropped })
        &&& !fresh ==> entries(c1.reliable_client_queue@) == q0
            && c1.reliable_client_counter == ctr && r.delivered@.len() == 0
        &&& payloads(r.delivered@) == deliver(q1, ctr).0
        &&& entries(c1.reliable_client_queue@) == deliver(q1, ctr).1
        &&& c1.reliable_client_counter == deliver(q1, ctr).2
        &&& c1.pending_acks@ == c0.pending_acks@
        &&& c1.client_signature@ == c0.client_signature@
        &&& !r.newly_established
        &&& packet_views(r.responses@) == (if p.header.types_and_flags.has_flag(NEED_ACK) {
            seq![with_signature(
                ack_reply(p@),
                packet_signature(ack_reply(p@), key, Seq::empty(), c0.client_signature@),
            )]
        } else {
            Seq::empty()
        })
    })
    &&& (signature_accepted(&c0, p@, key, strict) && !p.header.types_and_flags.has_flag(MULTI_ACK) && !p.header.types_and_flags.has_flag(ACK)
        && p.header.types_and_flags.types() == DATA && !p.header.types_and_flags.has_flag(RELIABLE) ==> {
        &&& r.event == PacketEvent::UnreliableReceived
        &&& keeps_handshake(c0, c1)
        &&& keeps_streams(c0, c1)
        &&& payloads(r.delivered@) == seq![p.payload@]
        &&& c1.reliable_client_queue@ == c0.reliable_client_queue@
        &&& c1.reliable_client_counter == c0.reliable_client_counter
        &&& r.responses@.len() == 0 && !r.newly_established
    })
    &&& (signature_accepted(&c0, p@, key, strict) && !p.header.types_and_flags.has_flag(MULTI_ACK) && !p.header.types_and_flags.has_flag(ACK)
        && p.header.types_and_flags.types() != SYN && p.header.types_and_flags.types() != CONNECT
        && p.header.types_and_flags.types() != DATA ==> {
        &&& r.event == PacketEvent::UnsupportedType
        &&& keeps_handshake(c0, c1)
        &&& keeps_streams(c0, c1)
        &&& c1.reliable_client_queue@ == c0.reliable_client_queue@
        &&& c1.reliable_client_counter == c0.reliable_client_counter
        &&& c1.pending_acks@ == c0.pending_acks@
        &&& r.responses@.len() == 0 && r.delivered@.len() == 0 && !r.newly_established
    })
}

impl Connection {
    /// Processes one inbound packet from the peer.
    ///
    /// An aggregate acknowledgement (flag MULTI_ACK) clears every id its
    /// payload names from the pending sends; any other acknowledgement (flag
    /// ACK) clears its own id. Otherwise, by type: the first SYN stores the
    /// server's signature for the peer and answers, a later one changes
    /// nothing and gets no answer; CONNECT captures the peer's
    /// signature, takes the session id, restarts both counters and answers
    /// (in strict mode a CONNECT without the peer's signature changes nothing
    /// and gets no answer); reliable DATA is buffered unless it repeats an id,
    /// acknowledged when it asks for that, and the in-order run at the front of
    /// the buffer is delivered; unreliable DATA is delivered as it came; other
    /// types change nothing. Every answer is signed with `access_key`. In
    /// strict mode a packet whose signature does not verify changes nothing.
    pub fn process_packet(&mut self, packet: &PrudpPacket, access_key: &[u8], strict: bool) -> (r: Reaction)
        requires
            old(self).wf(),
        ensures
            final(self).wf(),
            reaction_to(*old(self), *final(self), *packet, access_key@, strict, r),
    {
        let tf = packet.header.types_and_flags;
        assert(0x001u16 | 0x008u16 == 9u16) by (bit_vector);
        if strict {
            let empty: Vec<u8> = Vec::new();
            assert(empty@ =~= Seq::<u8>::empty());
            let ok = if tf.get_types() == SYN {
                packet.verify_signature(access_key, empty.as_slice(), empty.as_slice())
            } else {
                packet.verify_signature(access_key, empty.as_slice(), self.server_signature.as_slice())
            };
            if !ok {
                return Reaction {
                    event: PacketEvent::BadSignature,
                    responses: Vec::new(),
                    delivered: Vec::new(),
                    newly_established: false,
                };
            }
        }
        if tf.has(MULTI_ACK) {
            let event = match decode_multi_ack(packet.payload.as_slice()) {
                Some(ids) => {
                    remove_acknowledged(&mut self.pending_acks, ids.as_slice());
                    PacketEvent::MultiAcknowledged
                },
                None => PacketEvent::MalformedMultiAck,
            };
            return Reaction { event, responses: Vec::new(), delivered: Vec::new(), newly_established: false };
        }
        if tf.has(ACK) {
            let mut ids: Vec<u16> = Vec::new();
            ids.push(packet.header.sequence_id);
            assert(ids@ =~= seq![packet.header.sequence_id]);
            remove_acknowledged(&mut self.pending_acks, ids.as_slice());
            return Reaction {
                event: PacketEvent::Acknowledged,
                responses: Vec::new(),
                delivered: Vec::new(),
                newly_established: false,
            };
        }
        let t = tf.get_types();
        if t == SYN {
            if self.syn_answered {
                return Reaction {
                    event: PacketEvent::SynRepeated,
                    responses: Vec::new(),
                    delivered: Vec::new(),
                    newly_established: false,
                };
            }
            self.syn_answered = true;
            self.server_signature = self.sock_addr.calculate_connection_signature(access_key);
            let mut response = packet.base_response_packet();
            response.header.types_and_flags = TypesAndFlags::from_parts(SYN, ACK | HAS_SIZE);
            let sig = crate::bytes::copy_range(self.server_signature.as_slice(), 0, self.server_signature.len());
            assert(sig@ =~= self.server_signature@);
            response.options.push(PacketOption::ConnectionSignature(sig));
            answer_syn_options(&packet.options, &mut response.options);
            assert(response@ == syn_reply(packet@, self.server_signature@)) by {
                assert(response@.options =~= syn_reply(packet@, self.server_signature@).options);
            }
            let empty: Vec<u8> = Vec::new();
            response.calculate_and_assign_signature(access_key, empty.as_slice(), empty.as_slice());
            let mut responses: Vec<PrudpPacket> = Vec::new();
            let ghost rv = response@;
            responses.push(response);
            assert(packet_views(responses@) =~= seq![rv]);
            assert(empty@ =~= Seq::<u8>::empty());
            return Reaction { event: PacketEvent::SynAnswered, responses, delivered: Vec::new(), newly_established: false };
        }
        if t == CONNECT {
            let dflt = crate::bytes::copy_range(self.client_signature.as_slice(), 0, self.client_signature.len());
            assert(dflt@ =~= self.client_signature@);
            let csig = find_offered_signature(&packet.options, dflt);
            let zero = zeros16();
            let missing = crate::signature::bytes_equal(csig.as_slice(), zero.as_slice());
            if strict && missing {
                return Reaction {
                    event: PacketEvent::MissingSignatureRejected,
                    responses: Vec::new(),
                    delivered: Vec::new(),
                    newly_established: false,
                };
            }
            let mut response = packet.base_response_packet();
            response.header.types_and_flags = TypesAndFlags::from_parts(CONNECT, ACK | HAS_SIZE);
            response.header.sequence_id = 1;
            response.options.push(PacketOption::ConnectionSignature(zero));
            answer_connect_options(&packet.options, &mut response.options);
            assert(response@ == connect_reply(packet@)) by {
                assert(response@.options =~= connect_reply(packet@).options);
            }
            let empty: Vec<u8> = Vec::new();
            assert(empty@ =~= Seq::<u8>::empty());
            response.calculate_and_assign_signature(access_key, empty.as_slice(), csig.as_slice());
            self.client_signature = csig;
            self.session_id = packet.header.session_id;
            self.reliable_client_counter = packet.header.sequence_id.wrapping_add(1);
            self.reliable_server_counter = 2;
            self.reliable_client_queue = Vec::new();
            self.pending_acks = Vec::new();
            let newly = !self.established;
            self.established = true;
            let mut responses: Vec<PrudpPacket> = Vec::new();
            let ghost rv = response@;
            responses.push(response);
            assert(packet_views(responses@) =~= seq![rv]);
            assert(entries(self.reliable_client_queue@) =~= Seq::<(u16, Seq<u8>)>::empty());
            let event = if missing { PacketEvent::ConnectedWithoutSignature } else { PacketEvent::Connected };
            return Reaction { event, responses, delivered: Vec::new(), newly_established: newly };
        }
        if t == DATA {
            if tf.has(RELIABLE) {
                let payload = crate::bytes::copy_range(packet.payload.as_slice(), 0, packet.payload.len());
                assert(payload@ =~= packet.payload@);
                let fresh = insert_reliable(
                    &mut self.reliable_client_queue,
                    self.reliable_client_counter,
                    ReliableEntry { sequence_id: packet.header.sequence_id, payload },
                );
                let mut responses: Vec<PrudpPacket> = Vec::new();
                if tf.has(NEED_ACK) {
                    let mut ack = packet.base_acknowledgement_packet();
                    let empty: Vec<u8> = Vec::new();
                    assert(empty@ =~= Seq::<u8>::empty());
                    ack.calculate_and_assign_signature(access_key, empty.as_slice(), self.client_signature.as_slice());
                    let ghost av = ack@;
                    responses.push(ack);
                    assert(packet_views(responses@) =~= seq![av]);
                } else {
                    assert(packet_views(responses@) =~= Seq::<PacketView>::empty());
                }
                let ghost q_before = self.reliable_client_queue@;
                let ghost c_before = self.reliable_client_counter;
                let delivered = deliver_in_order(&mut self.reliable_client_queue, &mut self.reliable_client_counter);
                proof {
                    if !fresh {
                        lemma_duplicate_changes_nothing(entries(q_before), c_before, (packet.header.sequence_id, packet.payload@));
                        assert(payloads(delivered@).len() == 0);
                    }
                }
                let event = if fresh { PacketEvent::ReliableBuffered } else { PacketEvent::DuplicateDropped };
                return Reaction { event, responses, delivered, newly_established: false };
            } else {
                let payload = crate::bytes::copy_range(packet.payload.as_slice(), 0, packet.payload.len());
                assert(payload@ =~= packet.payload@);
                let mut delivered: Vec<Vec<u8>> = Vec::new();
                delivered.push(payload);
                assert(payloads(delivered@) =~= seq![packet.payload@]);
                return Reaction {
                    event: PacketEvent::UnreliableReceived,
                    responses: Vec::new(),
                    delivered,
                    newly_established: false,
                };
            }
        }
        Reaction { event: PacketEvent::UnsupportedType, responses: Vec::new(), delivered: Vec::new(), newly_established: false }
    }
}


/// Acknowledging a batch clears every id in it from the pending sends in one
/// step, and keeps every pending id that the batch does not name.
pub proof fn lemma_batch_acknowledgement(pending: Seq<u16>, ids: Seq<u16>, x: u16)
    ensures
        without_ids(pending, ids).contains(x) <==> (pending.contains(x) && !ids.contains(x)),
    decreases pending.len(),
{
    if pending.len() > 0 {
        let init = pending.drop_last();
        let l = pending.last();
        lemma_batch_acknowledgement(init, ids, x);
        assert(pending =~= init.push(l));
        lemma_push_contains(init, l, x);
        if !ids.contains(l) {
            lemma_push_contains(without_ids(init, ids), l, x);
        }
    }
}

proof fn lemma_push_contains(s: Seq<u16>, v: u16, x: u16)
    ensures
        s.push(v).contains(x) <==> (s.contains(x) || v == x),
{
    if s.push(v).contains(x) {
        let i = choose|i: int| 0 <= i < s.push(v).len() && s.push(v)[i] == x;
        if i < s.len() {
            assert(s[i] == x);
        }
    }
    if s.contains(x) {
        let i = choose|i: int| 0 <= i < s.len() && s[i] == x;
        assert(s.push(v)[i] == x);
    }
    if v == x {
        assert(s.push(v)[s.len() as int] == x);
    }
}

/// The reliable DATA packet that carries `payload` to the peer of `c`, from
/// virtual port `own_port`, unsigned.
pub open spec fn data_packet(c: &Connection, own_port: VirtualPort, payload: Seq<u8>) -> PacketView {
    PacketView {
        header: PrudpHeader {
            source_port: own_port,
            destination_port: c.sock_addr.virtual_port,
            types_and_flags: TypesAndFlags((DATA + 16 * (RELIABLE | NEED_ACK | HAS_SIZE)) as u16),
            session_id: c.session_id,
            substream_id: 0,
            sequence_id: c.reliable_server_counter,
        },
        signature: zero_signature(),
        options: Seq::empty(),
        payload,
    }
}

impl Connection {
    /// Builds the signed reliable DATA packet that carries `payload` to the
    /// peer, records its id as awaiting acknowledgement and advances the
    /// outbound counter.
    pub fn send_reliable(&mut self, own_port: VirtualPort, payload: Vec<u8>, access_key: &[u8]) -> (r: PrudpPacket)
        requires
            old(self).wf(),
        ensures
            final(self).wf(),
            r@ == with_signature(
                data_packet(old(self), own_port, payload@),
                packet_signature(
                    data_packet(old(self), own_port, payload@),
                    access_key@,
                    Seq::empty(),
                    old(self).client_signature@,
                ),
            ),
            final(self).pending_acks@ == old(self).pending_acks@.push(old(self).reliable_server_counter),
            final(self).reliable_server_counter == next_seq(old(self).reliable_server_counter),
            final(self).reliable_client_queue@ == old(self).reliable_client_queue@,
            final(self).reliable_client_counter == old(self).reliable_client_counter,
            final(self).client_signature@ == old(self).client_signature@,
            final(self).server_signature@ == old(self).server_signature@,
            final(self).sock_addr == old(self).sock_addr,
            final(self).id == old(self).id,
            final(self).session_id == old(self).session_id,
            final(self).syn_answered == old(self).syn_answered,
            final(self).established == old(self).established,
    {
        assert(0x002u16 | 0x004u16 | 0x008u16 == 14u16) by (bit_vector);
        let seq_id = self.reliable_server_counter;
        let mut p = PrudpPacket {
            header: PrudpHeader {
                source_port: own_port,
                destination_port: self.sock_addr.virtual_port,
                types_and_flags: TypesAndFlags::from_parts(DATA, RELIABLE | NEED_ACK | HAS_SIZE),
                session_id: self.session_id,
                substream_id: 0,
                sequence_id: seq_id,
            },
            signature: zeros16(),
            options: Vec::new(),
            payload,
        };
        assert(p@.options =~= Seq::<OptionView>::empty());
        let empty: Vec<u8> = Vec::new();
        assert(empty@ =~= Seq::<u8>::empty());
        p.calculate_and_assign_signature(access_key, empty.as_slice(), self.client_signature.as_slice());
        self.pending_acks.push(seq_id);
        self.reliable_server_counter = seq_id.wrapping_add(1);
        p
    }
}

} // verus!
