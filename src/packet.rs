//! One PRUDP packet: its fields, its wire encoding and its decoding.
use vstd::prelude::*;
use crate::bytes::{le16, le32, u16_of, u32_of, push_u16, push_u32, push_all, read_u16, read_u32, copy_range};
use crate::bytes::{lemma_u16_round_trip, lemma_u16_bytes, lemma_u32_round_trip, lemma_u32_bytes};

verus! {

/// Packet types, the low four bits of the type-and-flags field.
pub const SYN: u16 = 0;
pub const CONNECT: u16 = 1;
pub const DATA: u16 = 2;
pub const DISCONNECT: u16 = 3;
pub const PING: u16 = 4;

/// Packet flags, the high twelve bits of the type-and-flags field.
pub const ACK: u16 = 0x001;
pub const RELIABLE: u16 = 0x002;
pub const NEED_ACK: u16 = 0x004;
pub const HAS_SIZE: u16 = 0x008;
pub const MULTI_ACK: u16 = 0x200;

/// Length of the fixed part of a packet: magic, header and signature.
pub const FIXED_LEN: usize = 30;

/// A virtual port: stream type in the high nibble, port number in the low one.
#[derive(Clone, Copy, Debug, PartialEq, Eq, Hash, Structural)]
pub struct VirtualPort(pub u8);

impl VirtualPort {
    pub fn new(port: u8, stream_type: u8) -> (r: VirtualPort)
        requires
            port < 16,
            stream_type < 16,
        ensures
            r.0 == stream_type * 16 + port,
    {
        VirtualPort(stream_type * 16 + port)
    }

    pub fn get_port_number(&self) -> (r: u8)
        ensures
            r == self.0 % 16,
    {
        self.0 % 16
    }

    pub fn get_stream_type(&self) -> (r: u8)
        ensures
            r == self.0 / 16,
    {
        self.0 / 16
    }
}

/// The type-and-flags field: type in the low four bits, flags above.
#[derive(Clone, Copy, Debug, PartialEq, Eq, Structural)]
pub struct TypesAndFlags(pub u16);

impl TypesAndFlags {
    pub open spec fn types(self) -> u16 {
        self.0 % 16
    }

    pub open spec fn flags(self) -> u16 {
        self.0 / 16
    }

    pub open spec fn has_flag(self, f: u16) -> bool {
        self.flags() & f != 0
    }

    pub fn get_types(&self) -> (r: u16)
        ensures
            r == self.types(),
    {
        self.0 % 16
    }

    pub fn get_flags(&self) -> (r: u16)
        ensures
            r == self.flags(),
    {
        self.0 / 16
    }

    pub fn has(&self, f: u16) -> (r: bool)
        ensures
            r == self.has_flag(f),
    {
        (self.0 / 16) & f != 0
    }

    /// The field with type `t` and flags exactly `f`.
    pub fn from_parts(t: u16, f: u16) -> (r: TypesAndFlags)
        requires
            t < 16,
            f < 4096,
        ensures
            r.0 == f * 16 + t,
            r.types() == t,
            r.flags() == f,
    {
        TypesAndFlags(f * 16 + t)
    }
}

/// The header fields that travel with every packet.
#[derive(Clone, Copy, Debug, PartialEq, Eq, Structural)]
pub struct PrudpHeader {
    pub source_port: VirtualPort,
    pub destination_port: VirtualPort,
    pub types_and_flags: TypesAndFlags,
    pub session_id: u8,
    pub substream_id: u8,
    pub sequence_id: u16,
}

/// A typed packet option.
#[derive(Debug)]
pub enum PacketOption {
    SupportedFunctions(u32),
    ConnectionSignature(Vec<u8>),
    FragmentId(u8),
    InitialSequenceId(u16),
    MaximumSubstreamId(u8),
}

/// What a packet option denotes.
pub enum OptionView {
    SupportedFunctions(u32),
    ConnectionSignature(Seq<u8>),
    FragmentId(u8),
    InitialSequenceId(u16),
    MaximumSubstreamId(u8),
}

impl View for PacketOption {
    type V = OptionView;

    open spec fn view(&self) -> OptionView {
        match self {
            PacketOption::SupportedFunctions(f) => OptionView::SupportedFunctions(*f),
            PacketOption::ConnectionSignature(s) => OptionView::ConnectionSignature(s@),
            PacketOption::FragmentId(x) => OptionView::FragmentId(*x),
            PacketOption::InitialSequenceId(x) => OptionView::InitialSequenceId(*x),
            PacketOption::MaximumSubstreamId(x) => OptionView::MaximumSubstreamId(*x),
        }
    }
}

impl PacketOption {
    /// A copy of this option.
    pub fn copy(&self) -> (r: PacketOption)
        ensures
            r@ == self@,
    {
        match self {
            PacketOption::SupportedFunctions(f) => PacketOption::SupportedFunctions(*f),
            PacketOption::ConnectionSignature(s) => {
                let c = copy_range(s.as_slice(), 0, s.len());
                assert(c@ =~= s@);
                PacketOption::ConnectionSignature(c)
            },
            PacketOption::FragmentId(x) => PacketOption::FragmentId(*x),
            PacketOption::InitialSequenceId(x) => PacketOption::InitialSequenceId(*x),
            PacketOption::MaximumSubstreamId(x) => PacketOption::MaximumSubstreamId(*x),
        }
    }
}

/// The wire tag of an option.
pub open spec fn option_id(o: OptionView) -> u8 {
    match o {
        OptionView::SupportedFunctions(_) => 0,
        OptionView::ConnectionSignature(_) => 1,
        OptionView::FragmentId(_) => 2,
        OptionView::InitialSequenceId(_) => 3,
        OptionView::MaximumSubstreamId(_) => 4,
    }
}

/// The wire value of an option.
pub open spec fn option_value(o: OptionView) -> Seq<u8> {
    match o {
        OptionView::SupportedFunctions(f) => le32(f),
        OptionView::ConnectionSignature(s) => s,
        OptionView::FragmentId(x) => seq![x],
        OptionView::InitialSequenceId(x) => le16(x),
        OptionView::MaximumSubstreamId(x) => seq![x],
    }
}

/// An option is well formed when its signature, if any, has 16 bytes.
pub open spec fn option_wf(o: OptionView) -> bool {
    match o {
        OptionView::ConnectionSignature(s) => s.len() == 16,
        _ => true,
    }
}

/// Tag, length, value.
pub open spec fn option_bytes(o: OptionView) -> Seq<u8> {
    seq![option_id(o), option_value(o).len() as u8] + option_value(o)
}

pub open spec fn options_bytes(os: Seq<OptionView>) -> Seq<u8>
    decreases os.len(),
{
    if os.len() == 0 {
        Seq::empty()
    } else {
        option_bytes(os[0]) + options_bytes(os.drop_first())
    }
}

/// The option that tag `id` and value `v` denote, if any.
pub open spec fn option_of(id: u8, v: Seq<u8>) -> Option<OptionView> {
    if id == 0 && v.len() == 4 {
        Some(OptionView::SupportedFunctions(u32_of(v[0], v[1], v[2], v[3])))
    } else if id == 1 && v.len() == 16 {
        Some(OptionView::ConnectionSignature(v))
    } else if id == 2 && v.len() == 1 {
        Some(OptionView::FragmentId(v[0]))
    } else if id == 3 && v.len() == 2 {
        Some(OptionView::InitialSequenceId(u16_of(v[0], v[1])))
    } else if id == 4 && v.len() == 1 {
        Some(OptionView::MaximumSubstreamId(v[0]))
    } else {
        None
    }
}

/// The options that the bytes `s` encode, one after another, if well formed.
pub open spec fn parse_options(s: Seq<u8>) -> Option<Seq<OptionView>>
    decreases s.len(),
{
    if s.len() == 0 {
        Some(Seq::empty())
    } else if s.len() < 2 || s.len() < 2 + s[1] {
        None
    } else {
        let n = 2 + s[1];
        match option_of(s[0], s.subrange(2, n)) {
            None => None,
            Some(o) => match parse_options(s.skip(n)) {
                None => None,
                Some(rest) => Some(seq![o] + rest),
            },
        }
    }
}

/// What a packet denotes.
pub struct PacketView {
    pub header: PrudpHeader,
    pub signature: Seq<u8>,
    pub options: Seq<OptionView>,
    pub payload: Seq<u8>,
}

/// A packet can be encoded when its signature has 16 bytes, its options are
/// well formed and its options and payload fit their length fields.
pub open spec fn packet_wf(p: PacketView) -> bool {
    &&& p.signature.len() == 16
    &&& forall|i: int| 0 <= i < p.options.len() ==> option_wf(#[trigger] p.options[i])
    &&& options_bytes(p.options).len() < 256
    &&& p.payload.len() < 65536
}

/// The twelve header bytes that follow the magic.
pub open spec fn header_bytes(h: PrudpHeader, options_len: u8, payload_len: u16) -> Seq<u8> {
    seq![1u8, options_len] + le16(payload_len) + seq![h.source_port.0, h.destination_port.0]
        + le16(h.types_and_flags.0) + seq![h.session_id, h.substream_id] + le16(h.sequence_id)
}

/// The wire encoding of a packet.
pub open spec fn packet_bytes(p: PacketView) -> Seq<u8> {
    seq![0xEAu8, 0xD0u8] + header_bytes(
        p.header,
        options_bytes(p.options).len() as u8,
        p.payload.len() as u16,
    ) + p.signature + options_bytes(p.options) + p.payload
}

/// The packet at the start of `s` and the number of bytes it takes, if
/// `s` starts with a well-formed packet.
pub open spec fn parse_packet(s: Seq<u8>) -> Option<(PacketView, nat)> {
    if s.len() < 30 || s[0] != 0xEA || s[1] != 0xD0 || s[2] != 1 {
        None
    } else {
        let olen = s[3] as int;
        let total = 30 + olen + u16_of(s[4], s[5]) as int;
        if s.len() < total {
            None
        } else {
            match parse_options(s.subrange(30, 30 + olen)) {
                None => None,
                Some(opts) => Some(
                    (
                        PacketView {
                            header: PrudpHeader {
                                source_port: VirtualPort(s[6]),
                                destination_port: VirtualPort(s[7]),
                                types_and_flags: TypesAndFlags(u16_of(s[8], s[9])),
                                session_id: s[10],
                                substream_id: s[11],
                                sequence_id: u16_of(s[12], s[13]),
                            },
                            signature: s.subrange(14, 30),
                            options: opts,
                            payload: s.subrange(30 + olen, total),
                        },
                        total as nat,
                    ),
                ),
            }
        }
    }
}

/// A PRUDP packet.
#[derive(Debug)]
pub struct PrudpPacket {
    pub header: PrudpHeader,
    pub signature: Vec<u8>,
    pub options: Vec<PacketOption>,
    pub payload: Vec<u8>,
}

impl View for PrudpPacket {
    type V = PacketView;

    open spec fn view(&self) -> PacketView {
        PacketView {
            header: self.header,
            signature: self.signature@,
            options: self.options@.map_values(|o: PacketOption| o@),
            payload: self.payload@,
        }
    }
}

/// Why bytes are not a packet.
#[derive(Clone, Copy, Debug, PartialEq, Eq, Structural)]
pub enum FramingError {
    /// Fewer bytes than the fixed part, or than the declared sizes ask for.
    Truncated,
    /// The magic or the version byte is wrong.
    BadMagic,
    /// An option has an unknown tag or a length that does not fit it.
    BadOption,
}


/// The error that decoding bytes `s` that hold no packet reports.
pub open spec fn framing_error(s: Seq<u8>) -> FramingError {
    if s.len() < 30 {
        FramingError::Truncated
    } else if s[0] != 0xEA || s[1] != 0xD0 || s[2] != 1 {
        FramingError::BadMagic
    } else if s.len() < 30 + s[3] as int + u16_of(s[4], s[5]) as int {
        FramingError::Truncated
    } else {
        FramingError::BadOption
    }
}

pub open spec fn options_wf(os: Seq<OptionView>) -> bool {
    forall|i: int| 0 <= i < os.len() ==> option_wf(#[trigger] os[i])
}

proof fn lemma_option_of_bytes(o: OptionView)
    requires
        option_wf(o),
    ensures
        option_of(option_id(o), option_value(o)) == Some(o),
        2 <= option_bytes(o).len() <= 18,
        option_value(o).len() < 256,
{
    match o {
        OptionView::SupportedFunctions(f) => {
            lemma_u32_round_trip(f);
        },
        OptionView::InitialSequenceId(x) => {
            lemma_u16_round_trip(x);
        },
        _ => {},
    }
}

proof fn lemma_option_of_wf(id: u8, v: Seq<u8>)
    requires
        option_of(id, v) is Some,
    ensures
        option_wf(option_of(id, v).unwrap()),
        option_id(option_of(id, v).unwrap()) == id,
        option_value(option_of(id, v).unwrap()) == v,
{
    if id == 0 {
        lemma_u32_bytes(v[0], v[1], v[2], v[3]);
        assert(v =~= seq![v[0], v[1], v[2], v[3]]);
    } else if id == 3 {
        lemma_u16_bytes(v[0], v[1]);
        assert(v =~= seq![v[0], v[1]]);
    } else if id == 2 || id == 4 {
        assert(v =~= seq![v[0]]);
    }
}

/// Encoding options one after another appends their encodings.
pub proof fn lemma_options_bytes_push(os: Seq<OptionView>, o: OptionView)
    ensures
        options_bytes(os.push(o)) == options_bytes(os) + option_bytes(o),
    decreases os.len(),
{
    if os.len() == 0 {
        assert(os.push(o).drop_first() =~= Seq::<OptionView>::empty());
        assert(os.push(o)[0] == o);
        assert(options_bytes(Seq::<OptionView>::empty()) == Seq::<u8>::empty());
        assert(options_bytes(os) == Seq::<u8>::empty());
        assert(options_bytes(os.push(o)) =~= option_bytes(o));
    } else {
        lemma_options_bytes_push(os.drop_first(), o);
        assert(os.push(o).drop_first() =~= os.drop_first().push(o));
        assert(os.push(o)[0] == os[0]);
        assert(options_bytes(os.push(o)) =~= options_bytes(os) + option_bytes(o));
    }
}

/// Decoding the encoding of well-formed options gives them back.
pub proof fn lemma_options_round_trip(os: Seq<OptionView>)
    requires
        options_wf(os),
    ensures
        parse_options(options_bytes(os)) == Some(os),
    decreases os.len(),
{
    if os.len() > 0 {
        let o = os[0];
        let rest = os.drop_first();
        assert(option_wf(o));
        lemma_option_of_bytes(o);
        assert(options_wf(rest)) by {
            assert forall|i: int| 0 <= i < rest.len() implies option_wf(#[trigger] rest[i]) by {
                assert(rest[i] == os[i + 1]);
            }
        }
        lemma_options_round_trip(rest);
        let s = options_bytes(os);
        let n = 2 + option_value(o).len();
        assert(s[1] == option_value(o).len() as u8);
        assert(s.subrange(2, n as int) =~= option_value(o));
        assert(s.skip(n as int) =~= options_bytes(rest));
        assert(seq![o] + rest =~= os);
    } else {
        assert(options_bytes(os) =~= Seq::<u8>::empty());
    }
}

/// Bytes that decode as options are exactly those options' encoding.
pub proof fn lemma_options_parsed(s: Seq<u8>)
    requires
        parse_options(s) is Some,
    ensures
        options_bytes(parse_options(s).unwrap()) == s,
        options_wf(parse_options(s).unwrap()),
    decreases s.len(),
{
    if s.len() == 0 {
        assert(options_bytes(Seq::<OptionView>::empty()) =~= s);
    } else {
        let n = 2 + s[1];
        let o = option_of(s[0], s.subrange(2, n as int)).unwrap();
        lemma_option_of_wf(s[0], s.subrange(2, n as int));
        lemma_options_parsed(s.skip(n as int));
        let rest = parse_options(s.skip(n as int)).unwrap();
        let os = seq![o] + rest;
        assert(os.drop_first() =~= rest);
        assert(os[0] == o);
        assert(options_bytes(os) =~= s);
        assert forall|i: int| 0 <= i < os.len() implies option_wf(#[trigger] os[i]) by {
            if i > 0 {
                assert(os[i] == rest[i - 1]);
            }
        }
    }
}

/// Decoding the encoding of a well-formed packet, with any bytes after it,
/// gives the packet back and the length of its encoding.
pub proof fn lemma_packet_round_trip(p: PacketView, rest: Seq<u8>)
    requires
        packet_wf(p),
    ensures
        parse_packet(packet_bytes(p) + rest) == Some((p, packet_bytes(p).len())),
{
    let ob = options_bytes(p.options);
    let s = packet_bytes(p) + rest;
    let olen = ob.len();
    let plen = p.payload.len();
    lemma_u16_round_trip(p.payload.len() as u16);
    lemma_u16_round_trip(p.header.types_and_flags.0);
    lemma_u16_round_trip(p.header.sequence_id);
    assert(options_wf(p.options));
    lemma_options_round_trip(p.options);
    assert(packet_bytes(p).len() == 30 + olen + plen);
    assert(s[3] == olen as u8);
    assert(u16_of(s[4], s[5]) == plen as u16);
    assert(s.subrange(30, 30 + olen as int) =~= ob);
    assert(s.subrange(14, 30) =~= p.signature);
    assert(s.subrange(30 + olen as int, (30 + olen + plen) as int) =~= p.payload);
    assert(u16_of(s[8], s[9]) == p.header.types_and_flags.0);
    assert(u16_of(s[12], s[13]) == p.header.sequence_id);
}

/// Bytes that decode as a packet start with exactly that packet's encoding.
pub proof fn lemma_packet_parsed(s: Seq<u8>)
    requires
        parse_packet(s) is Some,
    ensures
        packet_wf(parse_packet(s).unwrap().0),
        packet_bytes(parse_packet(s).unwrap().0) == s.take(parse_packet(s).unwrap().1 as int),
{
    let (p, n) = parse_packet(s).unwrap();
    let olen = s[3] as int;
    lemma_options_parsed(s.subrange(30, 30 + olen));
    lemma_u16_bytes(s[4], s[5]);
    lemma_u16_bytes(s[8], s[9]);
    lemma_u16_bytes(s[12], s[13]);
    assert(options_wf(p.options));
    assert(packet_bytes(p) =~= s.take(n as int));
}

/// Appends the encoding of `opts` to `out`.
pub fn encode_options(opts: &Vec<PacketOption>, out: &mut Vec<u8>)
    ensures
        final(out)@ == old(out)@ + options_bytes(opts@.map_values(|o: PacketOption| o@)),
{
    let ghost views = opts@.map_values(|o: PacketOption| o@);
    let mut i: usize = 0;
    while i < opts.len()
        invariant
            i <= opts@.len(),
            views == opts@.map_values(|o: PacketOption| o@),
            out@ == old(out)@ + options_bytes(views.take(i as int)),
        decreases opts@.len() - i,
    {
        let ghost before = out@;
        match &opts[i] {
            PacketOption::SupportedFunctions(f) => {
                out.push(0);
                out.push(4);
                push_u32(out, *f);
            },
            PacketOption::ConnectionSignature(sig) => {
                out.push(1);
                out.push(sig.len() as u8);
                push_all(out, sig.as_slice());
            },
            PacketOption::FragmentId(x) => {
                out.push(2);
                out.push(1);
                out.push(*x);
            },
            PacketOption::InitialSequenceId(x) => {
                out.push(3);
                out.push(2);
                push_u16(out, *x);
            },
            PacketOption::MaximumSubstreamId(x) => {
                out.push(4);
                out.push(1);
                out.push(*x);
            },
        }
        proof {
            lemma_options_bytes_push(views.take(i as int), views[i as int]);
            assert(views.take(i + 1) =~= views.take(i as int).push(views[i as int]));
            assert(out@ =~= before + option_bytes(views[i as int]));
        }
        i = i + 1;
    }
    assert(views.take(i as int) =~= views);
}

impl PrudpPacket {
    /// The wire encoding of this packet.
    pub fn encode(&self) -> (r: Vec<u8>)
        requires
            packet_wf(self@),
        ensures
            r@ == packet_bytes(self@),
    {
        let mut ob: Vec<u8> = Vec::new();
        encode_options(&self.options, &mut ob);
        assert(ob@ =~= options_bytes(self@.options));
        let mut out: Vec<u8> = Vec::new();
        out.push(0xEA);
        out.push(0xD0);
        out.push(1);
        out.push(ob.len() as u8);
        push_u16(&mut out, self.payload.len() as u16);
        out.push(self.header.source_port.0);
        out.push(self.header.destination_port.0);
        push_u16(&mut out, self.header.types_and_flags.0);
        out.push(self.header.session_id);
        out.push(self.header.substream_id);
        push_u16(&mut out, self.header.sequence_id);
        push_all(&mut out, self.signature.as_slice());
        push_all(&mut out, ob.as_slice());
        push_all(&mut out, self.payload.as_slice());
        assert(out@ =~= packet_bytes(self@));
        out
    }
}


/// The option with tag `id` and value `s[start..end]`, if that is one.
fn decode_option(id: u8, s: &[u8], start: usize, end: usize) -> (r: Option<PacketOption>)
    requires
        start <= end <= s@.len(),
    ensures
        match r {
            Some(o) => option_of(id, s@.subrange(start as int, end as int)) == Some(o@),
            None => option_of(id, s@.subrange(start as int, end as int)) is None,
        },
{
    let ghost v = s@.subrange(start as int, end as int);
    let len = end - start;
    if id == 0 && len == 4 {
        Some(PacketOption::SupportedFunctions(read_u32(s, start)))
    } else if id == 1 && len == 16 {
        Some(PacketOption::ConnectionSignature(copy_range(s, start, end)))
    } else if id == 2 && len == 1 {
        Some(PacketOption::FragmentId(s[start]))
    } else if id == 3 && len == 2 {
        Some(PacketOption::InitialSequenceId(read_u16(s, start)))
    } else if id == 4 && len == 1 {
        Some(PacketOption::MaximumSubstreamId(s[start]))
    } else {
        None
    }
}

/// The options that `s[pos..end]` encodes, if well formed.
pub fn decode_options(s: &[u8], pos: usize, end: usize) -> (r: Option<Vec<PacketOption>>)
    requires
        pos <= end <= s@.len(),
    ensures
        match r {
            Some(v) => parse_options(s@.subrange(pos as int, end as int)) == Some(
                v@.map_values(|o: PacketOption| o@),
            ),
            None => parse_options(s@.subrange(pos as int, end as int)) is None,
        },
    decreases end - pos,
{
    let ghost t = s@.subrange(pos as int, end as int);
    if pos == end {
        let v: Vec<PacketOption> = Vec::new();
        assert(v@.map_values(|o: PacketOption| o@) =~= Seq::<OptionView>::empty());
        return Some(v);
    }
    if end - pos < 2 || end - pos < 2 + s[pos + 1] as usize {
        return None;
    }
    let n: usize = 2 + s[pos + 1] as usize;
    assert(t.subrange(2, n as int) =~= s@.subrange(pos + 2, (pos + n) as int));
    assert(t.skip(n as int) =~= s@.subrange((pos + n) as int, end as int));
    match decode_option(s[pos], s, pos + 2, pos + n) {
        None => None,
        Some(o) => match decode_options(s, pos + n, end) {
            None => None,
            Some(mut rest) => {
                let ghost rv = rest@.map_values(|o: PacketOption| o@);
                rest.insert(0, o);
                assert(rest@.map_values(|o: PacketOption| o@) =~= seq![o@] + rv);
                Some(rest)
            },
        },
    }
}

impl PrudpPacket {
    /// The wire encoding of this packet, where it can be encoded.
    pub fn to_bytes(&self) -> (r: Option<Vec<u8>>)
        ensures
            r is Some <==> packet_wf(self@),
            r is Some ==> r.unwrap()@ == packet_bytes(self@),
    {
        if self.signature.len() != 16 || self.payload.len() >= 65536 {
            return None;
        }
        let ghost vs = self@.options;
        let mut i: usize = 0;
        while i < self.options.len()
            invariant
                i <= self.options@.len(),
                vs == self@.options,
                forall|j: int| 0 <= j < i ==> option_wf(#[trigger] vs[j]),
            decreases self.options@.len() - i,
        {
            match &self.options[i] {
                PacketOption::ConnectionSignature(sig) => {
                    if sig.len() != 16 {
                        assert(!option_wf(vs[i as int]));
                        return None;
                    }
                },
                _ => {},
            }
            i = i + 1;
        }
        let mut ob: Vec<u8> = Vec::new();
        encode_options(&self.options, &mut ob);
        assert(ob@ =~= options_bytes(vs));
        if ob.len() >= 256 {
            return None;
        }
        Some(self.encode())
    }

    /// Decodes the packet that starts at `pos` in `s`; on success also returns
    /// the position just after it.
    pub fn decode(s: &[u8], pos: usize) -> (r: Result<(PrudpPacket, usize), FramingError>)
        requires
            pos <= s@.len(),
        ensures
            match r {
                Ok((p, next)) => parse_packet(s@.skip(pos as int)) == Some((p@, (next - pos) as nat))
                    && pos < next <= s@.len(),
                Err(e) => parse_packet(s@.skip(pos as int)) is None && e == framing_error(
                    s@.skip(pos as int),
                ),
            },
    {
        let ghost t = s@.skip(pos as int);
        if s.len() - pos < FIXED_LEN {
            return Err(FramingError::Truncated);
        }
        if s[pos] != 0xEA || s[pos + 1] != 0xD0 || s[pos + 2] != 1 {
            return Err(FramingError::BadMagic);
        }
        let olen = s[pos + 3] as usize;
        let plen = read_u16(s, pos + 4) as usize;
        if s.len() - pos < FIXED_LEN + olen + plen {
            return Err(FramingError::Truncated);
        }
        let ostart = pos + FIXED_LEN;
        let pstart = ostart + olen;
        let next = pstart + plen;
        assert(t.subrange(30, 30 + olen as int) =~= s@.subrange(ostart as int, pstart as int));
        match decode_options(s, ostart, pstart) {
            None => Err(FramingError::BadOption),
            Some(options) => {
                let p = PrudpPacket {
                    header: PrudpHeader {
                        source_port: VirtualPort(s[pos + 6]),
                        destination_port: VirtualPort(s[pos + 7]),
                        types_and_flags: TypesAndFlags(read_u16(s, pos + 8)),
                        session_id: s[pos + 10],
                        substream_id: s[pos + 11],
                        sequence_id: read_u16(s, pos + 12),
                    },
                    signature: copy_range(s, pos + 14, ostart),
                    options,
                    payload: copy_range(s, pstart, next),
                };
                assert(p.signature@ =~= t.subrange(14, 30));
                assert(p.payload@ =~= t.subrange(30 + olen as int, 30 + olen + plen as int));
                Ok((p, next))
            },
        }
    }
}

} // verus!
