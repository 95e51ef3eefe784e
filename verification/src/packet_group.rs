//! Per-file reassembly state.
//!
//! A [`PacketGroup`] accumulates everything received so far for one file id:
//! the file's name (from the last header packet seen), the expected number of
//! packets (from the last data packet that claimed to be final), and a map
//! from packet number to payload.  Later packets overwrite earlier ones —
//! last write wins, since delivery order is arbitrary.  The group is complete
//! when the expected count is known and equals the number of distinct packet
//! numbers received; [`PacketGroup::materialize`] then concatenates the
//! payloads in packet-number order.

use std::collections::HashMap;

use vstd::prelude::*;

use crate::packets::{Data, DataView, Header, HeaderView, Packet, PacketView};

verus! {

broadcast use vstd::std_specs::hash::group_hash_axioms;

/// The accumulating state for one file id.
#[derive(Debug, PartialEq, Eq)]
pub struct PacketGroup {
    file_name: Option<String>,
    expected_number_of_packets: Option<usize>,
    packets: HashMap<u16, Vec<u8>>,
}

/// The mathematical content of a [`PacketGroup`]: its name and payloads as
/// character and byte sequences, and its fragments as a map.
#[verifier::ext_equal]
pub struct GroupView {
    pub file_name: Option<Seq<char>>,
    pub expected_number_of_packets: Option<int>,
    pub packets: Map<u16, Seq<u8>>,
}

impl View for PacketGroup {
    type V = GroupView;

    closed spec fn view(&self) -> GroupView {
        GroupView {
            file_name: (match self.file_name {
                Some(ref s) => Some(s@),
                None => None,
            }),
            expected_number_of_packets: (match self.expected_number_of_packets {
                Some(n) => Some(n as int),
                None => None,
            }),
            packets: self.packets@.map_values(|v: Vec<u8>| v@),
        }
    }
}

/// The state of a group that has received nothing yet.
pub open spec fn spec_empty_group() -> GroupView {
    GroupView { file_name: None, expected_number_of_packets: None, packets: Map::empty() }
}

/// What a header packet does to a group: it sets the file's name, the last
/// header seen winning over any earlier one.
pub open spec fn spec_apply_header(g: GroupView, h: HeaderView) -> GroupView {
    GroupView {
        file_name: Some(h.file_name),
        expected_number_of_packets: g.expected_number_of_packets,
        packets: g.packets,
    }
}

/// What a data packet does to a group: it stores the payload under its packet
/// number, overwriting any earlier payload there, and, when the packet claims
/// to be the file's last, records the expected count as its number plus one,
/// overwriting any earlier claim.
pub open spec fn spec_apply_data(g: GroupView, d: DataView) -> GroupView {
    GroupView {
        file_name: g.file_name,
        expected_number_of_packets: (if d.is_last_packet {
            Some(d.packet_number + 1)
        } else {
            g.expected_number_of_packets
        }),
        packets: g.packets.insert(d.packet_number, d.data),
    }
}

/// What one packet of either kind does to a group.
pub open spec fn spec_apply(g: GroupView, p: PacketView) -> GroupView {
    match p {
        PacketView::Header(h) => spec_apply_header(g, h),
        PacketView::Data(d) => spec_apply_data(g, d),
    }
}

/// True when the group's expected count is known and equals the number of
/// distinct packet numbers received.  This counts fragments; it does not
/// check that their numbers are contiguous, so a gap plus a duplicate under
/// the same count goes undetected.  The protocol leaves that weakness open
/// and this library preserves it; [`PacketGroup::materialize`] is where a
/// missing number finally surfaces.
pub open spec fn spec_complete(g: GroupView) -> bool {
    g.expected_number_of_packets == Some(g.packets.len() as int)
}

/// True when the group holds a payload for packet number `i`.
pub open spec fn spec_has_packet(g: GroupView, i: int) -> bool {
    0 <= i <= u16::MAX && g.packets.contains_key(i as u16)
}

/// The reassembled byte stream: the payloads of packet numbers `0` through
/// `count - 1`, concatenated in increasing packet-number order.
pub open spec fn spec_assembled(packets: Map<u16, Seq<u8>>, count: int) -> Seq<u8>
    decreases count,
{
    if count <= 0 {
        Seq::empty()
    } else {
        spec_assembled(packets, count - 1) + packets[(count - 1) as u16]
    }
}

/// Why a group could not be materialized into an output byte stream.  These
/// are protocol-state faults, kept distinct from any I/O failure a caller
/// meets while writing the stream out.
#[derive(Clone, Copy, Debug, PartialEq, Eq, Structural)]
pub enum MaterializeError {
    /// No header packet has arrived, so the file has no name.
    MissingFileName,
    /// No data packet claiming to be the file's last has arrived, so the
    /// expected packet count is unknown.
    MissingPacketCount,
    /// The packet with this number is absent though the expected count says
    /// it should exist; it is the smallest such number.
    MissingPacket(usize),
}

/// Re-applying a data packet is idempotent: a group that has absorbed a data
/// packet is left exactly as it was when the same packet arrives again, so
/// duplicate delivery never changes the reassembled state.
pub proof fn lemma_data_reapply_idempotent(g: GroupView, p: PacketView)
    requires
        p is Data,
    ensures
        spec_apply(spec_apply(g, p), p) == spec_apply(g, p),
{
    let once = spec_apply(g, p);
    let twice = spec_apply(once, p);
    assert(twice.packets =~= once.packets);
    assert(twice =~= once);
}

impl Default for PacketGroup {
    /// The group of a file none of whose packets have arrived yet.
    fn default() -> (r: PacketGroup)
        ensures
            r@ == spec_empty_group(),
    {
        let r = PacketGroup {
            file_name: None,
            expected_number_of_packets: None,
            packets: HashMap::new(),
        };
        proof {
            assert(r@.packets =~= spec_empty_group().packets);
            assert(r@ =~= spec_empty_group());
        }
        r
    }
}

impl PacketGroup {
    /// True when every expected packet of this file has been received, by
    /// count: the expected number is known and equals the number of distinct
    /// packet numbers stored.
    pub fn received_all_packets(&self) -> (r: bool)
        ensures
            r == spec_complete(self@),
    {
        proof {
            assert(self@.packets.dom() =~= self.packets@.dom());
        }
        match self.expected_number_of_packets {
            Some(expected) => expected == self.packets.len(),
            None => false,
        }
    }

    /// Absorb one packet into this group, as [`spec_apply`] describes.
    pub fn process_packet(&mut self, packet: Packet)
        ensures
            final(self)@ == spec_apply(old(self)@, packet@),
    {
        match packet {
            Packet::Header(header) => self.process_header_packet(header),
            Packet::Data(data) => self.process_data_packet(data),
        }
    }

    fn process_header_packet(&mut self, header: Header)
        ensures
            final(self)@ == spec_apply_header(old(self)@, header@),
    {
        self.file_name = Some(header.file_name);
        proof {
            assert(self@ =~= spec_apply_header(old(self)@, header@));
        }
    }

    fn process_data_packet(&mut self, data: Data)
        ensures
            final(self)@ == spec_apply_data(old(self)@, data@),
    {
        let packet_number = data.packet_number;
        let is_last = data.is_last_packet;
        self.packets.insert(packet_number, data.data);
        if is_last {
            self.expected_number_of_packets = Some(packet_number as usize + 1);
        }
        proof {
            assert(self@.packets =~= spec_apply_data(old(self)@, data@).packets);
            assert(self@ =~= spec_apply_data(old(self)@, data@));
        }
    }

    /// Reassemble the file's byte stream: the payloads of packet numbers `0`
    /// through the expected count minus one, concatenated in increasing
    /// order.  Fails, without producing anything, when the name or the
    /// expected count is still unknown or when the smallest required packet
    /// number reported in the error is absent.
    pub fn materialize(&self) -> (r: Result<Vec<u8>, MaterializeError>)
        ensures
            (match r {
                Ok(bytes) => {
                    &&& self@.file_name is Some
                    &&& self@.expected_number_of_packets matches Some(n)
                    &&& forall|i: int| 0 <= i < n ==> spec_has_packet(self@, i)
                    &&& bytes@ == spec_assembled(self@.packets, n)
                },
                Err(MaterializeError::MissingFileName) => self@.file_name is None,
                Err(MaterializeError::MissingPacketCount) => {
                    &&& self@.file_name is Some
                    &&& self@.expected_number_of_packets is None
                },
                Err(MaterializeError::MissingPacket(i)) => {
                    &&& self@.file_name is Some
                    &&& self@.expected_number_of_packets matches Some(n)
                    &&& 0 <= i < n
                    &&& !spec_has_packet(self@, i as int)
                    &&& forall|j: int| 0 <= j < i ==> spec_has_packet(self@, j)
                },
            }),
    {
        if self.file_name.is_none() {
            return Err(MaterializeError::MissingFileName);
        }
        let expected = match self.expected_number_of_packets {
            Some(n) => n,
            None => {
                return Err(MaterializeError::MissingPacketCount);
            },
        };
        proof {
            assert(self@.packets.dom() =~= self.packets@.dom());
        }
        let mut out: Vec<u8> = Vec::new();
        let mut i: usize = 0;
        while i < expected
            invariant
                i <= expected,
                self@.file_name is Some,
                self@.expected_number_of_packets == Some(expected as int),
                self@.packets.dom() =~= self.packets@.dom(),
                forall|j: int| 0 <= j < i ==> spec_has_packet(self@, j),
                out@ == spec_assembled(self@.packets, i as int),
            decreases expected - i,
        {
            if i > u16::MAX as usize {
                return Err(MaterializeError::MissingPacket(i));
            }
            let key = i as u16;
            match self.packets.get(&key) {
                Some(payload) => {
                    out.extend_from_slice(payload.as_slice());
                },
                None => {
                    return Err(MaterializeError::MissingPacket(i));
                },
            }
            i = i + 1;
        }
        Ok(out)
    }

    /// The file's name, as the last header packet set it; `None` before any
    /// header packet has arrived.
    pub fn file_name(&self) -> (r: &Option<String>)
        ensures
            (match r {
                Some(s) => self@.file_name == Some(s@),
                None => self@.file_name is None,
            }),
    {
        &self.file_name
    }

    /// The number of packets this file is expected to comprise, as the last
    /// final-packet claim set it; `None` before any such claim has arrived.
    pub fn expected_number_of_packets(&self) -> (r: Option<usize>)
        ensures
            (match r {
                Some(n) => self@.expected_number_of_packets == Some(n as int),
                None => self@.expected_number_of_packets is None,
            }),
    {
        self.expected_number_of_packets
    }

    /// How many distinct packet numbers have payloads stored.
    pub fn packet_count(&self) -> (r: usize)
        ensures
            r == self@.packets.len(),
    {
        proof {
            assert(self@.packets.dom() =~= self.packets@.dom());
        }
        self.packets.len()
    }

    /// The payload stored under a packet number, if one has arrived.
    pub fn get_packet(&self, packet_number: u16) -> (r: Option<&Vec<u8>>)
        ensures
            (match r {
                Some(v) => self@.packets.contains_key(packet_number)
                    && self@.packets[packet_number] == v@,
                None => !self@.packets.contains_key(packet_number),
            }),
    {
        proof {
            assert(self@.packets.dom() =~= self.packets@.dom());
        }
        self.packets.get(&packet_number)
    }
}

} // verus!
