//! The rangefinder's wire format: checksums, the measurement request, and
//! the decoding of a measurement response.

use vstd::prelude::*;
use vstd::string::StringExecFns;

verus! {

/// Number of bytes of a measurement response.
pub const DATA_LENGTH: usize = 9;

/// The byte that a measurement response starts with, twice.
pub const FRAME_HEADER: u8 = 0x59;

/// The byte that every command starts with.
pub const COMMAND_HEADER: u8 = 0x5a;

/// Signal strength below which a reading is not trusted.
pub const MIN_SIGNAL: u16 = 100;

/// Signal strength by which the sensor marks a saturated reading.
pub const SATURATED_SIGNAL: u16 = 0xffff;

/// Why a reading could not be had.
#[derive(Clone, Debug, PartialEq, Eq)]
pub enum LidarError {
    /// The response did not have nine bytes.
    BadLength,
    /// The last byte is not the checksum of the eight before it.
    BadChecksum,
    /// The signal is too weak, or saturated.
    WeakSignal,
    /// The serial link failed; the text is the link's own account of it.
    UartError(String),
    /// The response does not start with the header bytes.
    BadStart,
}

/// Which of the two bytes of the distance field comes first.
#[derive(Clone, Copy, Debug, PartialEq, Eq)]
pub enum ByteOrder {
    /// The low byte comes first.
    LowFirst,
    /// The high byte comes first.
    HighFirst,
}

/// Sum of the first `len` bytes of `bytes`.
pub open spec fn byte_sum(bytes: Seq<u8>, len: int) -> int
    decreases len,
{
    if len <= 0 {
        0
    } else {
        byte_sum(bytes, len - 1) + bytes[len - 1] as int
    }
}

/// The checksum of a frame: the low byte of the sum of its first `len` bytes.
pub open spec fn checksum_of(bytes: Seq<u8>, len: int) -> int {
    byte_sum(bytes, len) % 256
}

/// The payload followed by its checksum.
pub open spec fn sealed(payload: Seq<u8>) -> Seq<u8> {
    payload.push(checksum_of(payload, payload.len() as int) as u8)
}

/// The two-byte field whose low byte is `low` and whose high byte is `high`.
pub open spec fn field(low: u8, high: u8) -> int {
    low as int + 256 * (high as int)
}

/// The signal strength that a response reports.
pub open spec fn signal_of(response: Seq<u8>) -> int {
    field(response[4], response[5])
}

/// The distance that a response reports, read in the given byte order.
pub open spec fn distance_of(response: Seq<u8>, order: ByteOrder) -> int {
    match order {
        ByteOrder::LowFirst => field(response[2], response[3]),
        ByteOrder::HighFirst => field(response[3], response[2]),
    }
}

/// What a response decodes to. The tests are made in this order: the length,
/// the two header bytes, the checksum, the signal strength.
pub open spec fn decoded(response: Seq<u8>, order: ByteOrder) -> Result<u16, LidarError> {
    if response.len() != DATA_LENGTH {
        Err(LidarError::BadLength)
    } else if response[0] != FRAME_HEADER || response[1] != FRAME_HEADER {
        Err(LidarError::BadStart)
    } else if response[8] as int != checksum_of(response, 8) {
        Err(LidarError::BadChecksum)
    } else if signal_of(response) < MIN_SIGNAL || signal_of(response) == SATURATED_SIGNAL {
        Err(LidarError::WeakSignal)
    } else {
        Ok(distance_of(response, order) as u16)
    }
}

/// The text that describes an error.
pub open spec fn message_text(e: LidarError) -> Seq<char> {
    match e {
        LidarError::BadLength => "a packet of wrong length was recieved"@,
        LidarError::BadChecksum => "a packet with wrong checksum was recieved"@,
        LidarError::WeakSignal => "lidar signal is not good enough for proper reading"@,
        LidarError::BadStart => "first bytes of a recieved data package were improper"@,
        LidarError::UartError(inner) => "uart has returned an error: "@ + inner@,
    }
}

/// The sum of a prefix does not depend on what follows the prefix.
pub proof fn lemma_byte_sum_prefix(a: Seq<u8>, b: Seq<u8>, len: int)
    requires
        0 <= len <= a.len(),
        len <= b.len(),
        forall|i: int| 0 <= i < len ==> a[i] == b[i],
    ensures
        byte_sum(a, len) == byte_sum(b, len),
    decreases len,
{
    if len > 0 {
        lemma_byte_sum_prefix(a, b, len - 1);
    }
}

/// The last byte of a sealed frame is the checksum of the bytes before it,
/// so the checksum test accepts every sealed frame.
pub proof fn lemma_sealed_checksum_matches(payload: Seq<u8>)
    ensures
        sealed(payload).len() == payload.len() + 1,
        sealed(payload)[payload.len() as int] as int == checksum_of(
            sealed(payload),
            payload.len() as int,
        ),
        forall|i: int| 0 <= i < payload.len() ==> sealed(payload)[i] == payload[i],
{
    lemma_byte_sum_prefix(payload, sealed(payload), payload.len() as int);
}

/// A response of nine bytes with the right header whose last byte is not the
/// checksum of the first eight is rejected for its checksum, whatever else
/// it holds.
pub proof fn lemma_wrong_checksum_rejected(response: Seq<u8>, order: ByteOrder)
    requires
        response.len() == DATA_LENGTH,
        response[0] == FRAME_HEADER,
        response[1] == FRAME_HEADER,
        response[8] as int != checksum_of(response, 8),
    ensures
        decoded(response, order) == Err::<u16, LidarError>(LidarError::BadChecksum),
{
}

/// A well-formed response with the right checksum whose signal field is 0 or
/// 0xFFFF is rejected for its signal.
pub proof fn lemma_weak_signal_rejected(response: Seq<u8>, order: ByteOrder)
    requires
        response.len() == DATA_LENGTH,
        response[0] == FRAME_HEADER,
        response[1] == FRAME_HEADER,
        response[8] as int == checksum_of(response, 8),
        signal_of(response) == 0 || signal_of(response) == SATURATED_SIGNAL,
    ensures
        decoded(response, order) == Err::<u16, LidarError>(LidarError::WeakSignal),
{
}

/// A response sealed from eight bytes that start with the header and report a
/// usable signal decodes to the distance it carries.
pub proof fn lemma_sealed_response_decodes(payload: Seq<u8>, order: ByteOrder)
    requires
        payload.len() == 8,
        payload[0] == FRAME_HEADER,
        payload[1] == FRAME_HEADER,
        MIN_SIGNAL <= field(payload[4], payload[5]) < SATURATED_SIGNAL,
    ensures
        decoded(sealed(payload), order) == Ok::<u16, LidarError>(
            distance_of(payload, order) as u16,
        ),
{
    lemma_sealed_checksum_matches(payload);
}

/// Computes the checksum of the first `len` bytes of `buf`.
pub fn calc_checksum(buf: &[u8], len: usize) -> (cs: u8)
    requires
        len <= buf@.len(),
    ensures
        cs as int == checksum_of(buf@, len as int),
{
    let mut sum: u8 = 0;
    let mut i: usize = 0;
    while i < len
        invariant
            i <= len,
            len <= buf@.len(),
            sum as int == byte_sum(buf@, i as int) % 256,
        decreases len - i,
    {
        sum = sum.wrapping_add(buf[i]);
        i = i + 1;
    }
    sum
}

/// The payload followed by its checksum.
pub fn seal(payload: &[u8]) -> (frame: Vec<u8>)
    ensures
        frame@ == sealed(payload@),
{
    let mut frame: Vec<u8> = Vec::new();
    let mut i: usize = 0;
    while i < payload.len()
        invariant
            i <= payload@.len(),
            frame@ == payload@.take(i as int),
        decreases payload@.len() - i,
    {
        frame.push(payload[i]);
        proof {
            assert(payload@.take(i as int).push(payload@[i as int]) =~= payload@.take(i + 1));
        }
        i = i + 1;
    }
    proof {
        assert(payload@.take(payload@.len() as int) =~= payload@);
    }
    frame.push(calc_checksum(payload, payload.len()));
    frame
}

/// The command that asks the sensor for one measurement.
pub fn measurement_request() -> (frame: Vec<u8>)
    ensures
        frame@ == sealed(seq![COMMAND_HEADER, 0x04u8, 0x04u8]),
        frame@ == seq![0x5au8, 0x04u8, 0x04u8, 0x62u8],
{
    let payload: [u8; 3] = [COMMAND_HEADER, 0x04, 0x04];
    let frame = seal(payload.as_slice());
    proof {
        let p = seq![COMMAND_HEADER, 0x04u8, 0x04u8];
        assert(payload@ =~= p);
        reveal_with_fuel(byte_sum, 4);
        assert(byte_sum(p, 3) == 0x62);
        assert(frame@ =~= seq![0x5au8, 0x04u8, 0x04u8, 0x62u8]);
    }
    frame
}

/// The two-byte field whose low byte is `low` and whose high byte is `high`.
pub fn read_field(low: u8, high: u8) -> (v: u16)
    ensures
        v as int == field(low, high),
{
    (low as u16) + 256 * (high as u16)
}

/// Decodes a measurement response, reading the distance in the given byte
/// order. `response` holds the bytes that were received, no more.
pub fn decode_point_as(response: &[u8], order: ByteOrder) -> (r: Result<u16, LidarError>)
    ensures
        r == decoded(response@, order),
{
    if response.len() != DATA_LENGTH {
        return Err(LidarError::BadLength);
    }
    if response[0] != FRAME_HEADER || response[1] != FRAME_HEADER {
        return Err(LidarError::BadStart);
    }
    if response[8] != calc_checksum(response, 8) {
        return Err(LidarError::BadChecksum);
    }
    let signal: u16 = read_field(response[4], response[5]);
    if signal < MIN_SIGNAL || signal == SATURATED_SIGNAL {
        return Err(LidarError::WeakSignal);
    }
    let distance: u16 = match order {
        ByteOrder::LowFirst => read_field(response[2], response[3]),
        ByteOrder::HighFirst => read_field(response[3], response[2]),
    };
    Ok(distance)
}

/// Decodes a measurement response: the distance, low byte first, in the
/// sensor's unit. `response` holds the bytes that were received, no more.
pub fn decode_point(response: &[u8]) -> (r: Result<u16, LidarError>)
    ensures
        r == decoded(response@, ByteOrder::LowFirst),
{
    decode_point_as(response, ByteOrder::LowFirst)
}

impl LidarError {
    /// The text that describes the error.
    pub fn message(&self) -> (text: String)
        ensures
            text@ == message_text(*self),
    {
        match self {
            LidarError::BadLength => "a packet of wrong length was recieved".to_owned(),
            LidarError::BadChecksum => "a packet with wrong checksum was recieved".to_owned(),
            LidarError::WeakSignal => "lidar signal is not good enough for proper reading".to_owned(),
            LidarError::BadStart => "first bytes of a recieved data package were improper".to_owned(),
            LidarError::UartError(inner) => "uart has returned an error: ".to_owned().concat(
                inner.as_str(),
            ),
        }
    }
}

} // verus!
