//! The fixed datagram header: version, sequence number and stream id.
use vstd::prelude::*;

verus! {

/// Size in bytes of every datagram on the wire.
pub const PACKET_SIZE: usize = 172;

/// The only protocol version that is accepted.
pub const SUPPORTED_VERSION: u8 = 2;

/// The fields read from a datagram's header.
#[derive(Clone, Copy, Debug, PartialEq, Eq, Structural)]
pub struct Header {
    pub version: u8,
    pub sequence: u16,
    pub stream_id: u32,
}

/// Why a datagram was not accepted.
#[derive(Clone, Copy, Debug, PartialEq, Eq, Structural)]
pub enum HeaderError {
    /// Fewer than `PACKET_SIZE` bytes.
    Truncated,
    /// The top two bits of byte 0 are not `SUPPORTED_VERSION`.
    UnsupportedVersion,
}

/// Version field: the top two bits of byte 0.
pub open spec fn version_of(d: Seq<u8>) -> int {
    d[0] as int / 64
}

/// Big-endian sequence number in bytes 2 and 3.
pub open spec fn sequence_of(d: Seq<u8>) -> int {
    d[2] as int * 256 + d[3] as int
}

/// Big-endian stream id in bytes 8 to 11.
pub open spec fn stream_id_of(d: Seq<u8>) -> int {
    d[8] as int * 16777216 + d[9] as int * 65536 + d[10] as int * 256 + d[11] as int
}

/// What parsing a datagram yields. Bytes past `PACKET_SIZE` play no part.
pub open spec fn parse_spec(d: Seq<u8>) -> Result<Header, HeaderError> {
    if d.len() < PACKET_SIZE {
        Err(HeaderError::Truncated)
    } else if version_of(d) != SUPPORTED_VERSION {
        Err(HeaderError::UnsupportedVersion)
    } else {
        Ok(
            Header {
                version: SUPPORTED_VERSION,
                sequence: sequence_of(d) as u16,
                stream_id: stream_id_of(d) as u32,
            },
        )
    }
}

/// Reads and validates the header of a datagram.
pub fn parse(datagram: &[u8]) -> (r: Result<Header, HeaderError>)
    ensures
        r == parse_spec(datagram@),
{
    if datagram.len() < PACKET_SIZE {
        return Err(HeaderError::Truncated);
    }
    let version: u8 = datagram[0] / 64;
    if version != SUPPORTED_VERSION {
        return Err(HeaderError::UnsupportedVersion);
    }
    let sequence: u16 = (datagram[2] as u16) * 256 + datagram[3] as u16;
    let stream_id: u32 = (datagram[8] as u32) * 16777216 + (datagram[9] as u32) * 65536
        + (datagram[10] as u32) * 256 + datagram[11] as u32;
    Ok(Header { version, sequence, stream_id })
}

/// A full-size datagram whose version bits are not `SUPPORTED_VERSION` is
/// refused with `UnsupportedVersion`, and parsing depends on nothing but the
/// datagram itself, so the datagrams after it are read as usual.
pub proof fn lemma_bad_version_rejected(bad: Seq<u8>, next: Seq<u8>)
    requires
        bad.len() >= PACKET_SIZE,
        version_of(bad) != SUPPORTED_VERSION,
        next.len() >= PACKET_SIZE,
        version_of(next) == SUPPORTED_VERSION,
    ensures
        parse_spec(bad) == Err::<Header, HeaderError>(HeaderError::UnsupportedVersion),
        parse_spec(next) matches Ok(h) && h.sequence == sequence_of(next) && h.stream_id
            == stream_id_of(next),
{
}

} // verus!
