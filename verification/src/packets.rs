//! The packet wire format.
//!
//! A datagram's first byte is its status byte: an even value marks a header
//! packet, an odd value a data packet, and for data packets the value mod 4
//! further tells whether this is the file's last packet.  The layouts are
//! byte-exact and carry no length prefix: the datagram boundary is the packet
//! boundary.

use vstd::prelude::*;
use vstd::slice::{slice_index_get, slice_subrange, slice_to_vec};
use vstd::string::StrSliceExecFns;
use vstd::utf8::{decode_utf8, encode_utf8, valid_utf8};

verus! {

/// Why a raw byte buffer failed to decode as a packet.
#[derive(Clone, Copy, Debug, PartialEq, Eq, Structural)]
pub enum PacketParseError {
    /// The buffer is shorter than the minimum length for its classified kind
    /// (an empty buffer cannot even be classified).
    IncompletePacket,
    /// A header packet's name bytes are not valid UTF-8.
    FilenameParseError,
}

/// True when a status byte marks a header packet; odd values mark data packets.
pub open spec fn is_header_byte(b: u8) -> bool {
    b % 2 == 0
}

/// True when a data packet's status byte claims it is the file's last packet.
pub open spec fn is_last_byte(b: u8) -> bool {
    b % 4 == 3
}

/// Classification of a raw buffer by its first byte: `Ok(true)` for a header
/// packet, `Ok(false)` for a data packet, and an error for an empty buffer.
pub open spec fn spec_classify(bytes: Seq<u8>) -> Result<bool, PacketParseError> {
    if bytes.len() == 0 {
        Err(PacketParseError::IncompletePacket)
    } else {
        Ok(is_header_byte(bytes[0]))
    }
}

/// Classification reads nothing but the parity of byte 0: two non-empty
/// buffers whose first bytes agree mod 2 classify alike, and every empty
/// buffer is rejected as incomplete.
pub proof fn lemma_classification_by_parity(b1: Seq<u8>, b2: Seq<u8>)
    requires
        b1.len() > 0,
        b2.len() > 0,
        b1[0] % 2 == b2[0] % 2,
    ensures
        spec_classify(b1) == spec_classify(b2),
        spec_classify(Seq::<u8>::empty()) == Err::<bool, PacketParseError>(
            PacketParseError::IncompletePacket,
        ),
{
}

/// A buffer too short for its classified kind fails to decode as an
/// incomplete packet: under 3 bytes for a header packet, under 5 bytes for a
/// data packet.
pub proof fn lemma_short_buffer_incomplete(bytes: Seq<u8>)
    requires
        bytes.len() > 0,
    ensures
        is_header_byte(bytes[0]) && bytes.len() < 3 ==> spec_decode_packet(bytes) == Err::<
            PacketView,
            PacketParseError,
        >(PacketParseError::IncompletePacket),
        !is_header_byte(bytes[0]) && bytes.len() < 5 ==> spec_decode_packet(bytes) == Err::<
            PacketView,
            PacketParseError,
        >(PacketParseError::IncompletePacket),
{
}

/// A header packet: byte 0 even, byte 1 the file id, bytes 2.. the file's
/// name in UTF-8, consuming the rest of the datagram.
#[derive(Debug, PartialEq, Eq, Clone)]
pub struct Header {
    pub file_id: u8,
    pub file_name: String,
}

/// The mathematical content of a [`Header`]: the name as a character sequence.
pub struct HeaderView {
    pub file_id: u8,
    pub file_name: Seq<char>,
}

impl View for Header {
    type V = HeaderView;

    open spec fn view(&self) -> HeaderView {
        HeaderView { file_id: self.file_id, file_name: self.file_name@ }
    }
}

/// A data packet: byte 0 odd, byte 1 the file id, bytes 2-3 the packet number
/// big-endian, bytes 4.. the payload (possibly empty).
#[derive(Debug, PartialEq, Eq, Clone)]
pub struct Data {
    pub file_id: u8,
    pub packet_number: u16,
    pub is_last_packet: bool,
    pub data: Vec<u8>,
}

/// The mathematical content of a [`Data`] packet: the payload as a byte sequence.
pub struct DataView {
    pub file_id: u8,
    pub packet_number: u16,
    pub is_last_packet: bool,
    pub data: Seq<u8>,
}

impl View for Data {
    type V = DataView;

    open spec fn view(&self) -> DataView {
        DataView {
            file_id: self.file_id,
            packet_number: self.packet_number,
            is_last_packet: self.is_last_packet,
            data: self.data@,
        }
    }
}

/// A decoded datagram: one of the two packet kinds.
#[derive(Debug, PartialEq, Eq, Clone)]
pub enum Packet {
    Header(Header),
    Data(Data),
}

/// The mathematical content of a [`Packet`].
pub enum PacketView {
    Header(HeaderView),
    Data(DataView),
}

impl View for Packet {
    type V = PacketView;

    open spec fn view(&self) -> PacketView {
        match self {
            Packet::Header(h) => PacketView::Header(h@),
            Packet::Data(d) => PacketView::Data(d@),
        }
    }
}

/// What decoding a buffer as a header packet yields: the minimum length is 3
/// bytes, and a buffer at least that long decodes successfully exactly when
/// its name bytes are valid UTF-8.
pub open spec fn spec_decode_header(bytes: Seq<u8>) -> Result<HeaderView, PacketParseError> {
    if bytes.len() < 3 {
        Err(PacketParseError::IncompletePacket)
    } else if !valid_utf8(bytes.skip(2)) {
        Err(PacketParseError::FilenameParseError)
    } else {
        Ok(HeaderView { file_id: bytes[1], file_name: decode_utf8(bytes.skip(2)) })
    }
}

/// Relies on `String::from_utf8`: it succeeds exactly on the byte sequences
/// that are valid UTF-8, and the string it returns spells out the characters
/// those bytes encode.
#[verifier::external_body]
fn string_from_utf8(bytes: Vec<u8>) -> (r: Option<String>)
    ensures
        r is Some <==> valid_utf8(bytes@),
        (r matches Some(s) ==> s@ == decode_utf8(bytes@)),
{
    String::from_utf8(bytes).ok()
}

impl Header {
    /// Decode a raw datagram as a header packet.
    ///
    /// The caller has already classified the buffer, so a buffer long enough
    /// to carry a header packet must have an even status byte.
    pub fn try_from(bytes: &[u8]) -> (r: Result<Header, PacketParseError>)
        requires
            bytes@.len() >= 3 ==> is_header_byte(bytes@[0]),
        ensures
            (match r {
                Ok(h) => spec_decode_header(bytes@) == Ok::<HeaderView, PacketParseError>(h@),
                Err(e) => spec_decode_header(bytes@) == Err::<HeaderView, PacketParseError>(e),
            }),
    {
        if bytes.len() < 3 {
            return Err(PacketParseError::IncompletePacket);
        }
        let file_id = *slice_index_get(bytes, 1);
        let name_bytes = slice_to_vec(slice_subrange(bytes, 2, bytes.len()));
        proof {
            assert(bytes@.subrange(2, bytes@.len() as int) =~= bytes@.skip(2));
        }
        match string_from_utf8(name_bytes) {
            Some(file_name) => Ok(Header { file_id, file_name }),
            None => Err(PacketParseError::FilenameParseError),
        }
    }
}

/// The 16-bit packet number spelled big-endian by two bytes.
pub open spec fn spec_packet_number(hi: u8, lo: u8) -> u16 {
    (hi as int * 256 + lo as int) as u16
}

/// What decoding a buffer as a data packet yields: the minimum length is 5
/// bytes, and every buffer at least that long decodes successfully.
pub open spec fn spec_decode_data(bytes: Seq<u8>) -> Result<DataView, PacketParseError> {
    if bytes.len() < 5 {
        Err(PacketParseError::IncompletePacket)
    } else {
        Ok(
            DataView {
                file_id: bytes[1],
                packet_number: spec_packet_number(bytes[2], bytes[3]),
                is_last_packet: is_last_byte(bytes[0]),
                data: bytes.skip(4),
            },
        )
    }
}

impl Data {
    /// Decode a raw datagram as a data packet.
    ///
    /// The caller has already classified the buffer, so a buffer long enough
    /// to carry a data packet must have an odd status byte.
    pub fn try_from(bytes: &[u8]) -> (r: Result<Data, PacketParseError>)
        requires
            bytes@.len() >= 5 ==> !is_header_byte(bytes@[0]),
        ensures
            (match r {
                Ok(d) => spec_decode_data(bytes@) == Ok::<DataView, PacketParseError>(d@),
                Err(e) => spec_decode_data(bytes@) == Err::<DataView, PacketParseError>(e),
            }),
    {
        if bytes.len() < 5 {
            return Err(PacketParseError::IncompletePacket);
        }
        let status = *slice_index_get(bytes, 0);
        let file_id = *slice_index_get(bytes, 1);
        let hi = *slice_index_get(bytes, 2);
        let lo = *slice_index_get(bytes, 3);
        let packet_number: u16 = (hi as u16) * 256 + (lo as u16);
        let is_last_packet = status % 4 == 3;
        let data = slice_to_vec(slice_subrange(bytes, 4, bytes.len()));
        proof {
            assert(bytes@.subrange(4, bytes@.len() as int) =~= bytes@.skip(4));
        }
        Ok(Data { file_id, packet_number, is_last_packet, data })
    }
}

/// What decoding a buffer as a packet yields: classify by byte 0's parity,
/// then decode under the classified kind's layout.
pub open spec fn spec_decode_packet(bytes: Seq<u8>) -> Result<PacketView, PacketParseError> {
    if bytes.len() == 0 {
        Err(PacketParseError::IncompletePacket)
    } else if is_header_byte(bytes[0]) {
        match spec_decode_header(bytes) {
            Ok(h) => Ok(PacketView::Header(h)),
            Err(e) => Err(e),
        }
    } else {
        match spec_decode_data(bytes) {
            Ok(d) => Ok(PacketView::Data(d)),
            Err(e) => Err(e),
        }
    }
}

impl Packet {
    /// Classify a raw datagram by its status byte: `Ok(true)` for a header
    /// packet, `Ok(false)` for a data packet, an error for an empty buffer.
    pub fn is_header(bytes: &[u8]) -> (r: Result<bool, PacketParseError>)
        ensures
            r == spec_classify(bytes@),
    {
        if bytes.len() == 0 {
            return Err(PacketParseError::IncompletePacket);
        }
        Ok(*slice_index_get(bytes, 0) % 2 == 0)
    }

    /// The file id this packet belongs to, whichever kind it is.
    pub fn file_id(&self) -> (r: u8)
        ensures
            r == self@.spec_file_id(),
    {
        match self {
            Packet::Header(header) => header.file_id,
            Packet::Data(data) => data.file_id,
        }
    }

    /// Decode a raw datagram: classify it by byte 0's parity, then decode it
    /// under the classified kind's layout.
    pub fn try_from(bytes: &[u8]) -> (r: Result<Packet, PacketParseError>)
        ensures
            (match r {
                Ok(p) => spec_decode_packet(bytes@) == Ok::<PacketView, PacketParseError>(p@),
                Err(e) => spec_decode_packet(bytes@) == Err::<PacketView, PacketParseError>(e),
            }),
    {
        match Packet::is_header(bytes) {
            Err(e) => Err(e),
            Ok(true) => match Header::try_from(bytes) {
                Ok(h) => Ok(Packet::Header(h)),
                Err(e) => Err(e),
            },
            Ok(false) => match Data::try_from(bytes) {
                Ok(d) => Ok(Packet::Data(d)),
                Err(e) => Err(e),
            },
        }
    }
}

impl PacketView {
    /// The file id this packet belongs to, whichever kind it is.
    pub open spec fn spec_file_id(self) -> u8 {
        match self {
            PacketView::Header(h) => h.file_id,
            PacketView::Data(d) => d.file_id,
        }
    }
}

/// The wire bytes of a header packet, with 0 as the even status byte.
pub open spec fn spec_encode_header(h: HeaderView) -> Seq<u8> {
    seq![0u8, h.file_id] + encode_utf8(h.file_name)
}

/// The wire bytes of a data packet: status byte 3 claims the last packet,
/// status byte 1 does not, and the packet number is spelled big-endian.
pub open spec fn spec_encode_data(d: DataView) -> Seq<u8> {
    seq![
        if d.is_last_packet {
            3u8
        } else {
            1u8
        },
        d.file_id,
        (d.packet_number as int / 256) as u8,
        (d.packet_number as int % 256) as u8,
    ] + d.data
}

/// The wire bytes of a packet, under its kind's layout.
pub open spec fn spec_encode_packet(p: PacketView) -> Seq<u8> {
    match p {
        PacketView::Header(h) => spec_encode_header(h),
        PacketView::Data(d) => spec_encode_data(d),
    }
}

impl Header {
    /// Encode this header packet into the wire bytes that decode back to it.
    pub fn encode(&self) -> (r: Vec<u8>)
        ensures
            r@ == spec_encode_header(self@),
    {
        let mut out: Vec<u8> = Vec::new();
        out.push(0u8);
        out.push(self.file_id);
        let mut name_bytes = self.file_name.as_str().as_bytes_vec();
        out.append(&mut name_bytes);
        proof {
            assert(out@ =~= spec_encode_header(self@));
        }
        out
    }
}

impl Data {
    /// Encode this data packet into the wire bytes that decode back to it.
    pub fn encode(&self) -> (r: Vec<u8>)
        ensures
            r@ == spec_encode_data(self@),
    {
        let mut out: Vec<u8> = Vec::new();
        let status: u8 = if self.is_last_packet {
            3
        } else {
            1
        };
        out.push(status);
        out.push(self.file_id);
        out.push((self.packet_number / 256) as u8);
        out.push((self.packet_number % 256) as u8);
        out.extend_from_slice(self.data.as_slice());
        proof {
            assert(out@ =~= spec_encode_data(self@));
        }
        out
    }
}

impl Packet {
    /// Encode this packet into the wire bytes that decode back to it.
    pub fn encode(&self) -> (r: Vec<u8>)
        ensures
            r@ == spec_encode_packet(self@),
    {
        match self {
            Packet::Header(h) => h.encode(),
            Packet::Data(d) => d.encode(),
        }
    }
}

/// Encoding a header packet and decoding the bytes yields the packet back,
/// name preserved character for character.  A header with an empty name is
/// the one exception: its encoding is two bytes, under the three-byte
/// minimum, so decoding it reports an incomplete packet.
pub proof fn lemma_header_round_trip(h: HeaderView)
    requires
        h.file_name.len() > 0,
    ensures
        spec_decode_header(spec_encode_header(h)) == Ok::<HeaderView, PacketParseError>(h),
{
    let bytes = spec_encode_header(h);
    let name_bytes = encode_utf8(h.file_name);
    assert(name_bytes.len() > 0);
    assert(bytes.skip(2) =~= name_bytes);
    vstd::utf8::encode_utf8_valid_utf8(h.file_name);
    vstd::utf8::encode_utf8_decode_utf8(h.file_name);
}

/// Encoding a data packet and decoding the bytes yields the packet back.  A
/// data packet with an empty payload is the one exception: its encoding is
/// four bytes, under the five-byte minimum, so decoding it reports an
/// incomplete packet.
pub proof fn lemma_data_round_trip(d: DataView)
    requires
        d.data.len() > 0,
    ensures
        spec_decode_data(spec_encode_data(d)) == Ok::<DataView, PacketParseError>(d),
{
    let bytes = spec_encode_data(d);
    assert(bytes.skip(4) =~= d.data);
    vstd::arithmetic::div_mod::lemma_fundamental_div_mod(d.packet_number as int, 256);
}

/// Encoding any packet and decoding the bytes yields the packet back; the
/// status byte written by the encoder classifies under the same kind.  The
/// inputs left out are those whose encodings fall under the decoder's
/// minimum lengths: a header with an empty name and a data packet with an
/// empty payload.
pub proof fn lemma_packet_round_trip(p: PacketView)
    requires
        (match p {
            PacketView::Header(h) => h.file_name.len() > 0,
            PacketView::Data(d) => d.data.len() > 0,
        }),
    ensures
        spec_decode_packet(spec_encode_packet(p)) == Ok::<PacketView, PacketParseError>(p),
{
    match p {
        PacketView::Header(h) => lemma_header_round_trip(h),
        PacketView::Data(d) => lemma_data_round_trip(d),
    }
}

} // verus!
