//! Observed network traffic: what is read off a packet's headers, the record
//! that carries it out of the kernel, and what is read back from the record.

use crate::error::RuntimeError;
use crate::network::veth_host_name;
use crate::num::{decimal, u64_text};
use crate::text::{cat2, cat3, cat4, cat5, joined, joined_pieces_come_back, pieces};
use vstd::prelude::*;

verus! {

/// The length of an Ethernet header.
pub const ETHERNET_LEN: usize = 14;

/// The shortest IPv4 header.
pub const IPV4_LEN: usize = 20;

/// The length of a TCP header without options.
pub const TCP_LEN: usize = 20;

/// The length of a UDP header.
pub const UDP_LEN: usize = 8;

/// Protocol numbers.
pub const TCP: u8 = 6;
pub const UDP: u8 = 17;

/// The verdict that leaves a packet to whatever comes next.
pub const TC_ACT_PIPE: i32 = 3;

/// The length of a record.
pub const RECORD_LEN: usize = 20;

/// What a packet's headers say. Addresses are numbers, the first part in the
/// highest byte.
#[derive(Debug, Clone, Copy)]
pub struct RawFlowEvent {
    /// 0 for traffic from the container, 1 for traffic to it.
    pub direction: u8,
    pub protocol: u8,
    pub src_addr: u32,
    pub dst_addr: u32,
    pub src_port: u16,
    pub dst_port: u16,
    /// The length of the packet, IP header included.
    pub len: u16,
}

/// The number in two bytes, the high one first.
pub open spec fn be16(b: Seq<u8>, i: int) -> u16 {
    (b[i] as int * 256 + b[i + 1] as int) as u16
}

/// The number in four bytes, the highest first.
pub open spec fn be32(b: Seq<u8>, i: int) -> u32 {
    (b[i] as int * 0x100_0000 + b[i + 1] as int * 0x1_0000 + b[i + 2] as int * 0x100 + b[i + 3] as int) as u32
}

/// The number in two bytes, the low one first.
pub open spec fn le16(b: Seq<u8>, i: int) -> u16 {
    (b[i] as int + b[i + 1] as int * 256) as u16
}

/// The number in two bytes, the high one first.
fn read_be16(b: &[u8], i: usize) -> (r: u16)
    requires
        i + 2 <= b@.len(),
    ensures
        r == be16(b@, i as int),
{
    (b[i] as u16) * 256 + (b[i + 1] as u16)
}

/// The number in four bytes, the highest first.
fn read_be32(b: &[u8], i: usize) -> (r: u32)
    requires
        i + 4 <= b@.len(),
    ensures
        r == be32(b@, i as int),
{
    (b[i] as u32) * 0x100_0000 + (b[i + 1] as u32) * 0x1_0000 + (b[i + 2] as u32) * 0x100 + (b[i + 3] as u32)
}

/// The number in two bytes, the low one first.
fn read_le16(b: &[u8], i: usize) -> (r: u16)
    requires
        i + 2 <= b@.len(),
    ensures
        r == le16(b@, i as int),
{
    (b[i] as u16) + (b[i + 1] as u16) * 256
}

/// A packet that ends inside a header.
#[derive(Debug, Clone, Copy, PartialEq, Eq, Structural)]
pub struct Truncated;

/// Where the transport header of an IPv4 packet begins: the IP header gives
/// its own length, in words of four bytes.
pub open spec fn transport_at(packet: Seq<u8>) -> int {
    ETHERNET_LEN + (packet[ETHERNET_LEN as int] as int % 16) * 4
}

/// How long the transport header of a protocol is.
pub open spec fn transport_len(protocol: u8) -> int {
    if protocol == TCP {
        TCP_LEN as int
    } else {
        UDP_LEN as int
    }
}

/// What a packet's headers say: nothing of a packet that is not IPv4, or
/// carries neither TCP nor UDP.
pub open spec fn seen(packet: Seq<u8>, direction: u8) -> Result<Option<RawFlowEvent>, Truncated> {
    if packet.len() < ETHERNET_LEN {
        Err(Truncated)
    } else if be16(packet, 12) != 0x0800 {
        Ok(None)
    } else if packet.len() < ETHERNET_LEN + IPV4_LEN {
        Err(Truncated)
    } else {
        let protocol = packet[23];
        if protocol != TCP && protocol != UDP {
            Ok(None)
        } else if packet.len() < transport_at(packet) + transport_len(protocol) {
            Err(Truncated)
        } else {
            Ok(
                Some(
                    RawFlowEvent {
                        direction,
                        protocol,
                        src_addr: be32(packet, 26),
                        dst_addr: be32(packet, 30),
                        src_port: be16(packet, transport_at(packet)),
                        dst_port: be16(packet, transport_at(packet) + 2),
                        len: be16(packet, 16),
                    },
                ),
            )
        }
    }
}

/// Reads a packet's headers, none of them beyond the packet's end.
pub fn try_handle(packet: &[u8], direction: u8) -> (r: Result<Option<RawFlowEvent>, Truncated>)
    ensures
        r == seen(packet@, direction),
{
    if packet.len() < ETHERNET_LEN {
        return Err(Truncated);
    }
    if read_be16(packet, 12) != 0x0800 {
        return Ok(None);
    }
    if packet.len() < ETHERNET_LEN + IPV4_LEN {
        return Err(Truncated);
    }
    let protocol = packet[23];
    if protocol != TCP && protocol != UDP {
        return Ok(None);
    }
    let at: usize = ETHERNET_LEN + ((packet[ETHERNET_LEN] % 16) as usize) * 4;
    let needed: usize = if protocol == TCP {
        TCP_LEN
    } else {
        UDP_LEN
    };
    if packet.len() < at + needed {
        return Err(Truncated);
    }
    Ok(
        Some(
            RawFlowEvent {
                direction,
                protocol,
                src_addr: read_be32(packet, 26),
                dst_addr: read_be32(packet, 30),
                src_port: read_be16(packet, at),
                dst_port: read_be16(packet, at + 2),
                len: read_be16(packet, 16),
            },
        ),
    )
}

/// Observes a packet: the verdict on it, which is always to let it pass, and
/// the record to submit if its headers say something.
pub fn handle(packet: &[u8], direction: u8) -> (r: (i32, Option<RawFlowEvent>))
    ensures
        r.0 == TC_ACT_PIPE,
        r.1 == (match seen(packet@, direction) {
            Ok(e) => e,
            Err(_) => None,
        }),
{
    match try_handle(packet, direction) {
        Ok(e) => (TC_ACT_PIPE, e),
        Err(_) => (TC_ACT_PIPE, None),
    }
}

/// Observes a packet on its way from the container.
pub fn flow_ingress(packet: &[u8]) -> (r: (i32, Option<RawFlowEvent>))
    ensures
        r.0 == TC_ACT_PIPE,
        r.1 == (match seen(packet@, 0) {
            Ok(e) => e,
            Err(_) => None,
        }),
{
    handle(packet, 0)
}

/// Observes a packet on its way to the container.
pub fn flow_egress(packet: &[u8]) -> (r: (i32, Option<RawFlowEvent>))
    ensures
        r.0 == TC_ACT_PIPE,
        r.1 == (match seen(packet@, 1) {
            Ok(e) => e,
            Err(_) => None,
        }),
{
    handle(packet, 1)
}

// ---- Records ---------------------------------------------------------------

/// A record: the fields in order, numbers low byte first, with padding behind
/// the protocol and at the end.
pub open spec fn record(e: RawFlowEvent) -> Seq<u8> {
    let s = e.src_addr as int;
    let d = e.dst_addr as int;
    seq![
        e.direction,
        e.protocol,
        0u8,
        0u8,
        (s % 256) as u8,
        (s / 0x100 % 256) as u8,
        (s / 0x1_0000 % 256) as u8,
        (s / 0x100_0000 % 256) as u8,
        (d % 256) as u8,
        (d / 0x100 % 256) as u8,
        (d / 0x1_0000 % 256) as u8,
        (d / 0x100_0000 % 256) as u8,
        (e.src_port as int % 256) as u8,
        (e.src_port as int / 256) as u8,
        (e.dst_port as int % 256) as u8,
        (e.dst_port as int / 256) as u8,
        (e.len as int % 256) as u8,
        (e.len as int / 256) as u8,
        0u8,
        0u8,
    ]
}

/// The record that is submitted for what was seen.
pub fn to_record(e: &RawFlowEvent) -> (r: Vec<u8>)
    ensures
        r@ == record(*e),
{
    let s = e.src_addr;
    let d = e.dst_addr;
    let out: Vec<u8> = vec![
        e.direction,
        e.protocol,
        0u8,
        0u8,
        (s % 256) as u8,
        (s / 0x100 % 256) as u8,
        (s / 0x1_0000 % 256) as u8,
        (s / 0x100_0000 % 256) as u8,
        (d % 256) as u8,
        (d / 0x100 % 256) as u8,
        (d / 0x1_0000 % 256) as u8,
        (d / 0x100_0000 % 256) as u8,
        (e.src_port % 256) as u8,
        (e.src_port / 256) as u8,
        (e.dst_port % 256) as u8,
        (e.dst_port / 256) as u8,
        (e.len % 256) as u8,
        (e.len / 256) as u8,
        0u8,
        0u8,
    ];
    assert(out@ =~= record(*e));
    out
}

/// One observed packet.
#[derive(Debug, Clone, Copy)]
pub struct FlowEvent {
    /// Whether the packet went to the container, rather than came from it.
    pub to_container: bool,
    pub protocol: u8,
    /// The parts of an address, in the order in which it is written.
    pub src_addr: [u8; 4],
    pub dst_addr: [u8; 4],
    pub src_port: u16,
    pub dst_port: u16,
    pub len: u16,
}

/// What is known of one observed packet.
#[verifier::ext_equal]
pub struct FlowView {
    pub to_container: bool,
    pub protocol: u8,
    pub src_addr: Seq<u8>,
    pub dst_addr: Seq<u8>,
    pub src_port: u16,
    pub dst_port: u16,
    pub len: u16,
}

impl View for FlowEvent {
    type V = FlowView;

    open spec fn view(&self) -> FlowView {
        FlowView {
            to_container: self.to_container,
            protocol: self.protocol,
            src_addr: self.src_addr@,
            dst_addr: self.dst_addr@,
            src_port: self.src_port,
            dst_port: self.dst_port,
            len: self.len,
        }
    }
}

/// What a record says; one that is too short says nothing.
pub open spec fn read_back(b: Seq<u8>) -> Option<FlowView> {
    if b.len() < RECORD_LEN {
        None
    } else {
        Some(
            FlowView {
                to_container: b[0] != 0,
                protocol: b[1],
                src_addr: seq![b[7], b[6], b[5], b[4]],
                dst_addr: seq![b[11], b[10], b[9], b[8]],
                src_port: le16(b, 12),
                dst_port: le16(b, 14),
                len: le16(b, 16),
            },
        )
    }
}

/// Reads a record.
pub fn from_record(b: &[u8]) -> (r: Option<FlowEvent>)
    ensures
        match r {
            Some(e) => read_back(b@) == Some(e@),
            None => read_back(b@) is None,
        },
{
    if b.len() < RECORD_LEN {
        return None;
    }
    let src: [u8; 4] = [b[7], b[6], b[5], b[4]];
    let dst: [u8; 4] = [b[11], b[10], b[9], b[8]];
    let e = FlowEvent {
        to_container: b[0] != 0,
        protocol: b[1],
        src_addr: src,
        dst_addr: dst,
        src_port: read_le16(b, 12),
        dst_port: read_le16(b, 14),
        len: read_le16(b, 16),
    };
    assert(src@ =~= seq![b@[7], b@[6], b@[5], b@[4]]);
    assert(dst@ =~= seq![b@[11], b@[10], b@[9], b@[8]]);
    Some(e)
}

/// What the records say that say something.
pub open spec fn read_backs(items: Seq<Seq<u8>>) -> Seq<FlowView>
    decreases items.len(),
{
    if items.len() == 0 {
        Seq::empty()
    } else {
        let before = read_backs(items.drop_last());
        match read_back(items.last()) {
            Some(e) => before.push(e),
            None => before,
        }
    }
}

/// What is known of several observed packets.
pub open spec fn flows(v: Seq<FlowEvent>) -> Seq<FlowView> {
    v.map_values(|e: FlowEvent| e@)
}

/// The packets observed since the last time, given the records that came in.
pub fn drain(items: &Vec<Vec<u8>>) -> (r: Vec<FlowEvent>)
    ensures
        flows(r@) == read_backs(items@.map_values(|i: Vec<u8>| i@)),
{
    let ghost all = items@.map_values(|i: Vec<u8>| i@);
    let mut out: Vec<FlowEvent> = Vec::new();
    let mut i: usize = 0;
    assert(flows(out@) =~= read_backs(all.take(0)));
    while i < items.len()
        invariant
            i <= items@.len(),
            all == items@.map_values(|i: Vec<u8>| i@),
            flows(out@) == read_backs(all.take(i as int)),
        decreases items.len() - i,
    {
        proof {
            assert(all.take(i + 1).drop_last() =~= all.take(i as int));
            assert(all.take(i + 1).last() == items@[i as int]@);
        }
        match from_record(items[i].as_slice()) {
            Some(e) => {
                assert(flows(out@.push(e)) =~= flows(out@).push(e@));
                out.push(e);
            },
            None => {},
        }
        i += 1;
    }
    assert(all.take(i as int) =~= all);
    out
}

/// What is read back of an observed packet is what its headers say: the parts
/// of the addresses, the ports and the length as they stand in the packet, and
/// the side it was observed on.
pub proof fn observed_packets_read_back(packet: Seq<u8>, direction: u8)
    requires
        seen(packet, direction) matches Ok(Some(_)),
    ensures
        read_back(record(seen(packet, direction)->Ok_0->0)) == Some(
            FlowView {
                to_container: direction != 0,
                protocol: packet[23],
                src_addr: packet.subrange(26, 30),
                dst_addr: packet.subrange(30, 34),
                src_port: be16(packet, transport_at(packet)),
                dst_port: be16(packet, transport_at(packet) + 2),
                len: be16(packet, 16),
            },
        ),
{
    let e = seen(packet, direction)->Ok_0->0;
    let b = record(e);
    lemma_be32_bytes(packet, 26);
    lemma_be32_bytes(packet, 30);
    lemma_le16_bytes(e.src_port);
    lemma_le16_bytes(e.dst_port);
    lemma_le16_bytes(e.len);
    let v = read_back(b)->0;
    assert(v.src_addr =~= packet.subrange(26, 30));
    assert(v.dst_addr =~= packet.subrange(30, 34));
}

/// The bytes of a number that four bytes make up are those bytes.
proof fn lemma_be32_bytes(b: Seq<u8>, i: int)
    ensures
        ({
            let n = be32(b, i) as int;
            &&& n / 0x100_0000 % 256 == b[i]
            &&& n / 0x1_0000 % 256 == b[i + 1]
            &&& n / 0x100 % 256 == b[i + 2]
            &&& n % 256 == b[i + 3]
        }),
{
}

/// A number is what its two bytes make up.
proof fn lemma_le16_bytes(n: u16)
    ensures
        (((n as int % 256) as u8) as int + ((n as int / 256) as u8) as int * 256) as u16 == n,
{
}

// ---- Attaching -------------------------------------------------------------

/// The interface to observe a container at: the host's end of its link, if
/// there is one.
pub fn observed_interface(container_id: &str, attached: bool) -> (r: Result<String, RuntimeError>)
    ensures
        match r {
            Ok(i) => attached && i@ == "kv"@ + crate::network::tag_of(container_id@),
            Err(e) => !attached && (e matches RuntimeError::InvalidArgument(m) && m@
                == "no network attached to container "@ + container_id@),
        },
{
    if !attached {
        return Err(RuntimeError::InvalidArgument(cat2("no network attached to container ", container_id)));
    }
    Ok(veth_host_name(container_id))
}

/// How far the attempt to attach a program got.
pub enum Attaching {
    Done,
    /// The object has no such program.
    Missing,
    /// The program is of another kind.
    OtherKind(String),
    /// The kernel did not take the program.
    NotLoaded(String),
    /// The interface did not take the program.
    NotAttached(String),
}

/// What went wrong with a program.
pub open spec fn attach_fault(name: Seq<char>, iface: Seq<char>, how: Attaching) -> Option<Seq<char>> {
    match how {
        Attaching::Done => None,
        Attaching::Missing => Some("kiln-net-bpf object has no program named "@ + name),
        Attaching::OtherKind(e) => Some(name + " is not a TC classifier: "@ + e@),
        Attaching::NotLoaded(e) => Some("loading "@ + name + ": "@ + e@),
        Attaching::NotAttached(e) => Some("attaching "@ + name + " to "@ + iface + ": "@ + e@),
    }
}

/// What the attempt to attach a program means.
pub fn attach_classifier(name: &str, iface: &str, how: &Attaching) -> (r: Result<(), RuntimeError>)
    ensures
        match r {
            Ok(_) => attach_fault(name@, iface@, *how) is None,
            Err(e) => e matches RuntimeError::InvalidArgument(m) && attach_fault(name@, iface@, *how) == Some(m@),
        },
{
    let m = match how {
        Attaching::Done => {
            return Ok(());
        },
        Attaching::Missing => cat2("kiln-net-bpf object has no program named ", name),
        Attaching::OtherKind(e) => cat3(name, " is not a TC classifier: ", e.as_str()),
        Attaching::NotLoaded(e) => cat4("loading ", name, ": ", e.as_str()),
        Attaching::NotAttached(e) => {
            let head = cat4("attaching ", name, " to ", iface);
            cat3(head.as_str(), ": ", e.as_str())
        },
    };
    Err(RuntimeError::InvalidArgument(m))
}

// ---- Printing --------------------------------------------------------------

/// An address as it is written.
pub open spec fn address_text(a: Seq<u8>) -> Seq<char> {
    decimal(a[0] as nat) + "."@ + decimal(a[1] as nat) + "."@ + decimal(a[2] as nat) + "."@ + decimal(a[3] as nat)
}

/// An address as it is written.
pub fn write_address(a: &[u8; 4]) -> (r: String)
    ensures
        r@ == address_text(a@),
{
    let p = u64_text(a[0] as u64);
    let q = u64_text(a[1] as u64);
    let s = u64_text(a[2] as u64);
    let t = u64_text(a[3] as u64);
    let head = cat5(p.as_str(), ".", q.as_str(), ".", s.as_str());
    cat3(head.as_str(), ".", t.as_str())
}

/// A whole packet is seen for what it is: behind the two addresses and the kind
/// of an Ethernet frame stands the IP header, with options or without, and
/// behind that the ports. Other kinds of packets say nothing.
pub proof fn whole_packets_are_seen(
    addresses: Seq<u8>,
    header: Seq<u8>,
    transport: Seq<u8>,
    other: Seq<u8>,
    direction: u8,
)
    requires
        addresses.len() == 12,
        20 <= header.len() <= 60,
        header.len() % 4 == 0,
        header[0] == 64 + header.len() / 4,
        header[9] == 6 && transport.len() >= 20 || header[9] == 17 && transport.len() >= 8,
    ensures
        ({
            let packet = addresses + seq![8u8, 0u8] + header + transport;
            seen(packet, direction) == Ok::<Option<RawFlowEvent>, Truncated>(
                Some(
                    RawFlowEvent {
                        direction,
                        protocol: header[9],
                        src_addr: be32(header, 12),
                        dst_addr: be32(header, 16),
                        src_port: (transport[0] * 256 + transport[1]) as u16,
                        dst_port: (transport[2] * 256 + transport[3]) as u16,
                        len: (header[2] * 256 + header[3]) as u16,
                    },
                ),
            )
        }),
        ({
            let frame = addresses + seq![0x86u8, 0xddu8] + other;
            seen(frame, direction) == Ok::<Option<RawFlowEvent>, Truncated>(None)
        }),
        seen(addresses, direction) == Err::<Option<RawFlowEvent>, Truncated>(Truncated),
{
    let packet = addresses + seq![8u8, 0u8] + header + transport;
    assert(packet[12] == 8 && packet[13] == 0);
    assert forall|i: int| 0 <= i < header.len() implies packet[14 + i] == #[trigger] header[i] by {}
    assert forall|i: int| 0 <= i < transport.len() implies packet[14 + header.len() + i]
        == #[trigger] transport[i] by {}
    assert(packet[14] == header[0]);
    assert(packet[16] == header[2] && packet[17] == header[3]);
    assert(packet[23] == header[9]);
    assert(packet[26] == header[12] && packet[27] == header[13]);
    assert(packet[28] == header[14] && packet[29] == header[15]);
    assert(packet[30] == header[16] && packet[31] == header[17]);
    assert(packet[32] == header[18] && packet[33] == header[19]);
    let at = 14 + header.len() as int;
    assert(packet[at] == transport[0] && packet[at + 1] == transport[1]);
    assert(packet[at + 2] == transport[2] && packet[at + 3] == transport[3]);
    assert(transport_at(packet) == at);
    let frame = addresses + seq![0x86u8, 0xddu8] + other;
    assert(frame[12] == 0x86 && frame[13] == 0xdd);
}

/// An address is written as its four parts in order, in decimal, with dots
/// between them.
pub proof fn addresses_are_written_part_by_part(a: Seq<u8>)
    requires
        a.len() == 4,
    ensures
        pieces(address_text(a), '.') == seq![
            decimal(a[0] as nat),
            decimal(a[1] as nat),
            decimal(a[2] as nat),
            decimal(a[3] as nat),
        ],
{
    reveal_strlit(".");
    let v = seq![decimal(a[0] as nat), decimal(a[1] as nat), decimal(a[2] as nat), decimal(a[3] as nat)];
    assert forall|i: int| 0 <= i < v.len() implies !(#[trigger] v[i]).contains('.') by {
        assert(i == 0 || i == 1 || i == 2 || i == 3);
        crate::num::lemma_decimal(a[i] as nat);
        assert forall|k: int| 0 <= k < v[i].len() implies v[i][k] != '.' by {
            assert(crate::num::is_digit(v[i][k]));
        }
    }
    joined_pieces_come_back(v, '.');
    reveal_with_fuel(joined, 5);
    assert(v.drop_last() =~= seq![v[0], v[1], v[2]]);
    assert(seq![v[0], v[1], v[2]].drop_last() =~= seq![v[0], v[1]]);
    assert(seq![v[0], v[1]].drop_last() =~= seq![v[0]]);
    assert(joined(v, seq!['.']) =~= address_text(a));
}

} // verus!
