//! Command bodies and response payloads of the block read and write
//! operations: building the request frame for each operation, validating and
//! stripping the response header, and decoding payloads into typed values,
//! including the nibble-per-bit packing the bit operations use.
use vstd::prelude::*;
use crate::mc_protocol::{Config, McError, frame_spec, u16_le};
use crate::qseries::{resolve_spec, to_device_code};

verus! {

/// The unsigned 16-bit pattern that carries a signed word on the wire.
pub open spec fn u16_of_i16(w: i16) -> int {
    if w >= 0 {
        w as int
    } else {
        w as int + 0x10000
    }
}

/// The signed reading of an unsigned 16-bit wire value.
pub open spec fn i16_from_u16(v: u16) -> i16 {
    if v < 0x8000 {
        v as i16
    } else {
        (v - 0x10000) as i16
    }
}

/// The word a response payload carries at position `i`: two bytes, low first.
pub open spec fn word_at(data: Seq<u8>, i: int) -> u16 {
    (data[2 * i] + 256 * (data[2 * i + 1] as int)) as u16
}

/// The payload of a word write: each value's two bytes, low byte first.
pub open spec fn words_payload_spec(ws: Seq<i16>) -> Seq<u8> {
    Seq::new(
        (2 * ws.len()) as nat,
        |i: int|
            if i % 2 == 0 {
                (u16_of_i16(ws[i / 2]) % 256) as u8
            } else {
                (u16_of_i16(ws[i / 2]) / 256) as u8
            },
    )
}

/// The words of a raw read payload.
pub open spec fn words_from_bytes_spec(data: Seq<u8>, n: nat) -> Seq<u16> {
    Seq::new(n, |i: int| word_at(data, i))
}

/// The signed words of a read payload.
pub open spec fn decoded_words_spec(data: Seq<u8>, n: nat) -> Seq<i16> {
    Seq::new(n, |i: int| i16_from_u16(word_at(data, i)))
}

/// Device bit `i` of a bit-read payload: two bits pack per byte, the first in
/// the high nibble, the second in the low nibble, each masked to one bit.
pub open spec fn unpack_bit(data: Seq<u8>, i: int) -> u8 {
    if i % 2 == 0 {
        ((data[i / 2] / 16) % 2) as u8
    } else {
        (data[i / 2] % 2) as u8
    }
}

/// The first `n` device bits of a bit-read payload.
pub open spec fn unpack_bits_spec(data: Seq<u8>, n: nat) -> Seq<u8> {
    Seq::new(n, |i: int| unpack_bit(data, i))
}

/// The payload of a bit write: every two 0/1 values make one byte, the first
/// in the high nibble; an odd count is padded with a trailing 0.
pub open spec fn pack_bits_spec(bits: Seq<u8>) -> Seq<u8> {
    Seq::new(
        ((bits.len() + 1) / 2) as nat,
        |j: int|
            (bits[2 * j] * 16 + if 2 * j + 1 < bits.len() {
                bits[2 * j + 1] as int
            } else {
                0
            }) as u8,
    )
}

/// Every element is a plain bit value.
pub open spec fn all_bits(bits: Seq<u8>) -> bool {
    forall|i: int| 0 <= i < bits.len() ==> bits[i] == 0 || bits[i] == 1
}

/// The end code at its fixed place in a response, bytes 9 and 10, low first;
/// 0 when the buffer is too short to hold one.
pub open spec fn end_code_spec(buf: Seq<u8>) -> u16 {
    if buf.len() >= 11 {
        (buf[9] + 256 * (buf[10] as int)) as u16
    } else {
        0
    }
}

/// The request frame of a block word read and the total response length it
/// implies. The point count must lie in 1..=960 and the device string must
/// resolve.
pub open spec fn read_words_request_spec(c: Config, s: Seq<char>, size: u16) -> Result<
    (Seq<u8>, int),
    McError,
> {
    if !(1 <= size <= 960) {
        Err(McError::InvalidSize)
    } else {
        match resolve_spec(s) {
            None => Err(McError::InvalidDevice),
            Some(dev) => Ok(
                (
                    frame_spec(c, seq![0x01u8, 0x04u8, 0x00u8, 0x00u8] + dev + u16_le(size)),
                    11 + 2 * size as int,
                ),
            ),
        }
    }
}

/// The request frame of a block bit read and the total response length it
/// implies: the header and one byte for every two points.
pub open spec fn read_bits_request_spec(c: Config, s: Seq<char>, size: u16) -> Result<
    (Seq<u8>, int),
    McError,
> {
    match resolve_spec(s) {
        None => Err(McError::InvalidDevice),
        Some(dev) => Ok(
            (
                frame_spec(c, seq![0x01u8, 0x04u8, 0x01u8, 0x00u8] + dev + u16_le(size)),
                11 + (size as int + 1) / 2,
            ),
        ),
    }
}

/// The request frame of a block word write and the total response length it
/// implies. The point count must lie in 1..=960, checked before the device
/// string is resolved.
pub open spec fn write_words_request_spec(c: Config, s: Seq<char>, ws: Seq<i16>) -> Result<
    (Seq<u8>, int),
    McError,
> {
    if !(1 <= ws.len() <= 960) {
        Err(McError::InvalidSize)
    } else {
        match resolve_spec(s) {
            None => Err(McError::InvalidDevice),
            Some(dev) => Ok(
                (
                    frame_spec(
                        c,
                        seq![0x01u8, 0x14u8, 0x00u8, 0x00u8] + dev + u16_le(ws.len() as u16)
                            + words_payload_spec(ws),
                    ),
                    11,
                ),
            ),
        }
    }
}

/// The request frame of a block bit write and the total response length it
/// implies. The point count must lie in 1..=7168, checked before the device
/// string is resolved.
pub open spec fn write_bits_request_spec(c: Config, s: Seq<char>, bits: Seq<u8>) -> Result<
    (Seq<u8>, int),
    McError,
> {
    if !(1 <= bits.len() <= 7168) {
        Err(McError::InvalidSize)
    } else {
        match resolve_spec(s) {
            None => Err(McError::InvalidDevice),
            Some(dev) => Ok(
                (
                    frame_spec(
                        c,
                        seq![0x01u8, 0x14u8, 0x01u8, 0x00u8] + dev + u16_le(bits.len() as u16)
                            + pack_bits_spec(bits),
                    ),
                    11,
                ),
            ),
        }
    }
}

/// Builds the request of a block word read: command 0x0104, subcommand
/// 0x0000, the resolved device, then the point count.
pub fn read_words_request(cfg: &Config, device: &str, size: u16) -> (r: Result<
    (Vec<u8>, usize),
    McError,
>)
    ensures
        match r {
            Ok(p) => read_words_request_spec(*cfg, device@, size) == Ok::<(Seq<u8>, int), McError>(
                (p.0@, p.1 as int),
            ),
            Err(e) => read_words_request_spec(*cfg, device@, size) == Err::<
                (Seq<u8>, int),
                McError,
            >(e),
        },
{
    if size < 1 || size > 960 {
        return Err(McError::InvalidSize);
    }
    match to_device_code(device) {
        None => Err(McError::InvalidDevice),
        Some(dev) => {
            let mut cmd: Vec<u8> = Vec::new();
            cmd.push(0x01);
            cmd.push(0x04);
            cmd.push(0x00);
            cmd.push(0x00);
            cmd.extend_from_slice(dev.as_slice());
            cmd.push((size & 0xff) as u8);
            cmd.push(((size >> 8) & 0xff) as u8);
            proof {
                assert(cmd@ =~= seq![0x01u8, 0x04u8, 0x00u8, 0x00u8]
                    + resolve_spec(device@)->Some_0 + u16_le(size));
            }
            let frame = cfg.create_send_message(cmd.as_slice());
            Ok((frame, 11 + 2 * size as usize))
        },
    }
}

/// Builds the request of a block bit read: command 0x0104, subcommand 0x0100,
/// the resolved device, then the point count.
pub fn read_bits_request(cfg: &Config, device: &str, size: u16) -> (r: Result<
    (Vec<u8>, usize),
    McError,
>)
    ensures
        match r {
            Ok(p) => read_bits_request_spec(*cfg, device@, size) == Ok::<(Seq<u8>, int), McError>(
                (p.0@, p.1 as int),
            ),
            Err(e) => read_bits_request_spec(*cfg, device@, size) == Err::<
                (Seq<u8>, int),
                McError,
            >(e),
        },
{
    match to_device_code(device) {
        None => Err(McError::InvalidDevice),
        Some(dev) => {
            let mut cmd: Vec<u8> = Vec::new();
            cmd.push(0x01);
            cmd.push(0x04);
            cmd.push(0x01);
            cmd.push(0x00);
            cmd.extend_from_slice(dev.as_slice());
            cmd.push((size & 0xff) as u8);
            cmd.push(((size >> 8) & 0xff) as u8);
            proof {
                assert(cmd@ =~= seq![0x01u8, 0x04u8, 0x01u8, 0x00u8]
                    + resolve_spec(device@)->Some_0 + u16_le(size));
            }
            let frame = cfg.create_send_message(cmd.as_slice());
            let half = (size / 2) as usize + if size % 2 == 1 {
                1
            } else {
                0
            };
            Ok((frame, 11 + half))
        },
    }
}

/// The two wire bytes of one signed word, low byte first.
fn word_bytes(w: i16) -> (r: (u8, u8))
    ensures
        r.0 as int == u16_of_i16(w) % 256,
        r.1 as int == u16_of_i16(w) / 256,
{
    let u: u16 = if w >= 0 {
        w as u16
    } else {
        ((w as i32) + 0x10000) as u16
    };
    assert(u as int == u16_of_i16(w));
    ((u % 256) as u8, (u / 256) as u8)
}

/// Builds the request of a block word write: command 0x0114, subcommand
/// 0x0000, the resolved device, the point count, then each value's bytes.
pub fn write_words_request(cfg: &Config, device: &str, write_data: &[i16]) -> (r: Result<
    (Vec<u8>, usize),
    McError,
>)
    ensures
        match r {
            Ok(p) => write_words_request_spec(*cfg, device@, write_data@) == Ok::<
                (Seq<u8>, int),
                McError,
            >((p.0@, p.1 as int)),
            Err(e) => write_words_request_spec(*cfg, device@, write_data@) == Err::<
                (Seq<u8>, int),
                McError,
            >(e),
        },
{
    let n = write_data.len();
    if n < 1 || n > 960 {
        return Err(McError::InvalidSize);
    }
    match to_device_code(device) {
        None => Err(McError::InvalidDevice),
        Some(dev) => {
            let size: u16 = n as u16;
            let mut cmd: Vec<u8> = Vec::new();
            cmd.push(0x01);
            cmd.push(0x14);
            cmd.push(0x00);
            cmd.push(0x00);
            cmd.extend_from_slice(dev.as_slice());
            cmd.push((size & 0xff) as u8);
            cmd.push(((size >> 8) & 0xff) as u8);
            let ghost head = seq![0x01u8, 0x14u8, 0x00u8, 0x00u8] + resolve_spec(device@)->Some_0
                + u16_le(size);
            proof {
                assert(cmd@ =~= head);
            }
            let mut i: usize = 0;
            while i < n
                invariant
                    i <= n,
                    n == write_data@.len(),
                    cmd@ == head + words_payload_spec(write_data@.take(i as int)),
                decreases n - i,
            {
                let (lo, hi) = word_bytes(write_data[i]);
                cmd.push(lo);
                cmd.push(hi);
                proof {
                    assert(cmd@ =~= head + words_payload_spec(write_data@.take(i + 1)));
                }
                i += 1;
            }
            proof {
                assert(write_data@.take(n as int) =~= write_data@);
                assert(cmd@.len() == 10 + 2 * n);
            }
            let frame = cfg.create_send_message(cmd.as_slice());
            Ok((frame, 11))
        },
    }
}

/// Packs 0/1 values two to a byte, the first of each pair in the high nibble,
/// padding an odd count with a trailing 0.
pub fn pack_bits(bits: &[u8]) -> (r: Vec<u8>)
    requires
        all_bits(bits@),
    ensures
        r@ == pack_bits_spec(bits@),
{
    let n = bits.len();
    let half: usize = n / 2 + n % 2;
    let mut r: Vec<u8> = Vec::new();
    let mut j: usize = 0;
    while j < half
        invariant
            j <= half,
            half == (n + 1) / 2,
            n == bits@.len(),
            all_bits(bits@),
            r@.len() == j,
            forall|k: int| 0 <= k < j ==> r@[k] == pack_bits_spec(bits@)[k],
        decreases half - j,
    {
        let hi = bits[2 * j];
        let lo = if 2 * j + 1 < n {
            bits[2 * j + 1]
        } else {
            0
        };
        r.push(hi * 16 + lo);
        j += 1;
    }
    proof {
        assert(r@ =~= pack_bits_spec(bits@));
    }
    r
}

/// Builds the request of a block bit write: command 0x0114, subcommand
/// 0x0100, the resolved device, the point count, then the packed bits.
pub fn write_bits_request(cfg: &Config, device: &str, write_data: &[u8]) -> (r: Result<
    (Vec<u8>, usize),
    McError,
>)
    requires
        all_bits(write_data@),
    ensures
        match r {
            Ok(p) => write_bits_request_spec(*cfg, device@, write_data@) == Ok::<
                (Seq<u8>, int),
                McError,
            >((p.0@, p.1 as int)),
            Err(e) => write_bits_request_spec(*cfg, device@, write_data@) == Err::<
                (Seq<u8>, int),
                McError,
            >(e),
        },
{
    let n = write_data.len();
    if n < 1 || n > 7168 {
        return Err(McError::InvalidSize);
    }
    match to_device_code(device) {
        None => Err(McError::InvalidDevice),
        Some(dev) => {
            let size: u16 = n as u16;
            let packed = pack_bits(write_data);
            let mut cmd: Vec<u8> = Vec::new();
            cmd.push(0x01);
            cmd.push(0x14);
            cmd.push(0x01);
            cmd.push(0x00);
            cmd.extend_from_slice(dev.as_slice());
            cmd.push((size & 0xff) as u8);
            cmd.push(((size >> 8) & 0xff) as u8);
            cmd.extend_from_slice(packed.as_slice());
            proof {
                assert(cmd@ =~= seq![0x01u8, 0x14u8, 0x01u8, 0x00u8]
                    + resolve_spec(device@)->Some_0 + u16_le(size) + pack_bits_spec(write_data@));
                assert(cmd@.len() == 10 + (n + 1) / 2);
            }
            let frame = cfg.create_send_message(cmd.as_slice());
            Ok((frame, 11))
        },
    }
}

/// The payload behind the 11-byte header-and-end-code prefix, empty when the
/// count does not even cover the prefix.
pub open spec fn payload_spec(buf: Seq<u8>, read_size: int) -> Seq<u8> {
    if read_size >= 11 {
        buf.subrange(11, read_size)
    } else {
        Seq::<u8>::empty()
    }
}

/// Validates a received response against the byte count the request implies
/// and strips the 11-byte header-and-end-code prefix. A count mismatch is
/// reported together with the end code found at its fixed place, best effort.
/// Total over every count within the buffer: an answer, never a panic.
pub fn unpack_response(buffer: &[u8], read_size: usize, expected: usize) -> (r: Result<
    Vec<u8>,
    McError,
>)
    requires
        read_size <= buffer@.len(),
    ensures
        match r {
            Ok(v) => read_size == expected && v@ == payload_spec(buffer@, read_size as int),
            Err(e) => read_size != expected && e == (McError::UnexpectedResponseLength {
                expected,
                actual: read_size,
                end_code: end_code_spec(buffer@),
            }),
        },
{
    if read_size != expected {
        let end_code: u16 = if buffer.len() >= 11 {
            buffer[9] as u16 + 256 * (buffer[10] as u16)
        } else {
            0
        };
        return Err(
            McError::UnexpectedResponseLength { expected, actual: read_size, end_code },
        );
    }
    let mut v: Vec<u8> = Vec::new();
    if read_size <= 11 {
        proof {
            if read_size == 11 {
                assert(v@ =~= buffer@.subrange(11, 11));
            }
        }
        return Ok(v);
    }
    let mut i: usize = 11;
    proof {
        assert(v@ =~= buffer@.subrange(11, 11));
    }
    while i < read_size
        invariant
            11 <= i <= read_size,
            read_size <= buffer@.len(),
            v@ == buffer@.subrange(11, i as int),
        decreases read_size - i,
    {
        v.push(buffer[i]);
        proof {
            assert(v@ =~= buffer@.subrange(11, i + 1));
        }
        i += 1;
    }
    Ok(v)
}

/// The outcome of a write exchange: a count mismatch is reported with the end
/// code, a non-zero end code is the controller's refusal, a non-empty payload
/// carries a status code in its first two bytes, first byte high; only an
/// exact, clean, empty-payload response is success.
pub open spec fn write_response_spec(buf: Seq<u8>, read_size: usize, expected: usize) -> Result<
    (),
    McError,
> {
    if read_size != expected {
        Err(
            McError::UnexpectedResponseLength {
                expected,
                actual: read_size,
                end_code: end_code_spec(buf),
            },
        )
    } else if end_code_spec(buf) != 0 {
        Err(McError::DeviceError(end_code_spec(buf)))
    } else if read_size > 11 {
        Err(
            McError::DeviceError(
                (256 * (buf[11] as int) + if read_size >= 13 {
                    buf[12] as int
                } else {
                    0
                }) as u16,
            ),
        )
    } else {
        Ok(())
    }
}

/// Validates a write operation's response: the byte count must match, the end
/// code at bytes 9 and 10 must be zero, and the payload must be empty; a
/// non-zero end code or a stray payload is surfaced as the device's error.
/// Total over every count within the buffer: an answer, never a panic.
pub fn unpack_write_response(buffer: &[u8], read_size: usize, expected: usize) -> (r: Result<
    (),
    McError,
>)
    requires
        read_size <= buffer@.len(),
    ensures
        r == write_response_spec(buffer@, read_size, expected),
{
    let end_code: u16 = if buffer.len() >= 11 {
        buffer[9] as u16 + 256 * (buffer[10] as u16)
    } else {
        0
    };
    if read_size != expected {
        return Err(
            McError::UnexpectedResponseLength { expected, actual: read_size, end_code },
        );
    }
    if end_code != 0 {
        return Err(McError::DeviceError(end_code));
    }
    if read_size > 11 {
        let hi = buffer[11] as u16;
        let lo: u16 = if read_size >= 13 {
            buffer[12] as u16
        } else {
            0
        };
        return Err(McError::DeviceError(256 * hi + lo));
    }
    Ok(())
}

/// Decodes a word-read payload into unsigned 16-bit values, two bytes each,
/// low byte first. A payload of the wrong length is an error, never a panic.
pub fn decode_words_raw(data: &[u8], size: u16) -> (r: Result<Vec<u16>, McError>)
    ensures
        match r {
            Ok(v) => data@.len() == 2 * size as int && v@ == words_from_bytes_spec(
                data@,
                size as nat,
            ),
            Err(e) => data@.len() != 2 * size as int && e == (McError::UnexpectedResponseLength {
                expected: (2 * size as int) as usize,
                actual: data@.len() as usize,
                end_code: 0,
            }),
        },
{
    if data.len() != 2 * size as usize {
        return Err(
            McError::UnexpectedResponseLength {
                expected: 2 * size as usize,
                actual: data.len(),
                end_code: 0,
            },
        );
    }
    let mut v: Vec<u16> = Vec::new();
    let mut i: usize = 0;
    while i < size as usize
        invariant
            i <= size,
            data@.len() == 2 * size as int,
            v@.len() == i,
            forall|k: int| 0 <= k < i ==> v@[k] == word_at(data@, k),
        decreases size as int - i,
    {
        let w: u16 = data[2 * i] as u16 + 256 * (data[2 * i + 1] as u16);
        v.push(w);
        i += 1;
    }
    proof {
        assert(v@ =~= words_from_bytes_spec(data@, size as nat));
    }
    Ok(v)
}

/// Decodes a word-read payload into signed 16-bit values, reading each wire
/// word in two's complement.
pub fn decode_words(data: &[u8], size: u16) -> (r: Result<Vec<i16>, McError>)
    ensures
        match r {
            Ok(v) => data@.len() == 2 * size as int && v@ == decoded_words_spec(data@, size as nat),
            Err(e) => data@.len() != 2 * size as int && e == (McError::UnexpectedResponseLength {
                expected: (2 * size as int) as usize,
                actual: data@.len() as usize,
                end_code: 0,
            }),
        },
{
    match decode_words_raw(data, size) {
        Err(e) => Err(e),
        Ok(raw) => {
            let mut v: Vec<i16> = Vec::new();
            let mut i: usize = 0;
            let n = raw.len();
            while i < n
                invariant
                    i <= n,
                    n == raw@.len(),
                    v@.len() == i,
                    forall|k: int| 0 <= k < i ==> v@[k] == i16_from_u16(raw@[k]),
                decreases n - i,
            {
                let w = raw[i];
                let s: i16 = if w < 0x8000 {
                    w as i16
                } else {
                    ((w as i32) - 0x10000) as i16
                };
                v.push(s);
                i += 1;
            }
            proof {
                assert(v@ =~= decoded_words_spec(data@, size as nat));
            }
            Ok(v)
        },
    }
}

/// Decodes a bit-read payload into one 0/1 value per point: the first point
/// of each byte sits in the high nibble, the second in the low nibble.
pub fn decode_bits(data: &[u8], size: u16) -> (r: Result<Vec<u8>, McError>)
    ensures
        match r {
            Ok(v) => data@.len() == (size as int + 1) / 2 && v@ == unpack_bits_spec(
                data@,
                size as nat,
            ),
            Err(e) => data@.len() != (size as int + 1) / 2 && e
                == (McError::UnexpectedResponseLength {
                expected: ((size as int + 1) / 2) as usize,
                actual: data@.len() as usize,
                end_code: 0,
            }),
        },
{
    let need: usize = (size as usize) / 2 + if size % 2 == 1 {
        1
    } else {
        0
    };
    assert(need == (size as int + 1) / 2);
    if data.len() != need {
        return Err(
            McError::UnexpectedResponseLength { expected: need, actual: data.len(), end_code: 0 },
        );
    }
    let mut v: Vec<u8> = Vec::new();
    let mut i: usize = 0;
    while i < size as usize
        invariant
            i <= size,
            data@.len() == (size as int + 1) / 2,
            v@.len() == i,
            forall|k: int| 0 <= k < i ==> v@[k] == unpack_bit(data@, k),
        decreases size as int - i,
    {
        let byte = data[i / 2];
        let b: u8 = if i % 2 == 0 {
            (byte >> 4) & 0x01
        } else {
            byte & 0x01
        };
        proof {
            assert((byte >> 4) & 0x01 == (byte / 16) % 2) by (bit_vector);
            assert(byte & 0x01 == byte % 2) by (bit_vector);
        }
        v.push(b);
        i += 1;
    }
    proof {
        assert(v@ =~= unpack_bits_spec(data@, size as nat));
    }
    Ok(v)
}

/// Unpacking a packed bit sequence gives back every one of its values: the
/// nibble layouts of the bit write and the bit read are inverse to each
/// other, for even and odd counts alike.
pub proof fn lemma_bits_round_trip(bits: Seq<u8>)
    requires
        all_bits(bits),
    ensures
        unpack_bits_spec(pack_bits_spec(bits), bits.len()) == bits,
{
    let p = pack_bits_spec(bits);
    let u = unpack_bits_spec(p, bits.len());
    assert forall|i: int| 0 <= i < bits.len() implies u[i] == bits[i] by {
        let hi = bits[2 * (i / 2)] as int;
        let lo: int = if 2 * (i / 2) + 1 < bits.len() {
            bits[2 * (i / 2) + 1] as int
        } else {
            0
        };
        assert(p[i / 2] as int == hi * 16 + lo);
        assert(0 <= hi <= 1 && 0 <= lo <= 1);
        if i % 2 == 0 {
            assert(2 * (i / 2) == i);
            assert((hi * 16 + lo) / 16 == hi) by (nonlinear_arith)
                requires
                    0 <= hi <= 1,
                    0 <= lo <= 1,
            ;
            assert(hi % 2 == hi);
        } else {
            assert(2 * (i / 2) + 1 == i);
            assert((hi * 16 + lo) % 2 == lo) by (nonlinear_arith)
                requires
                    0 <= hi <= 1,
                    0 <= lo <= 1,
            ;
        }
    }
    assert(u =~= bits);
}

/// Decoding the payload a word write builds gives back every one of its
/// values: the word encode and decode paths are inverse to each other,
/// boundary values included.
pub proof fn lemma_words_round_trip(ws: Seq<i16>)
    ensures
        decoded_words_spec(words_payload_spec(ws), ws.len()) == ws,
{
    let data = words_payload_spec(ws);
    let d = decoded_words_spec(data, ws.len());
    assert forall|i: int| 0 <= i < ws.len() implies d[i] == ws[i] by {
        let u = u16_of_i16(ws[i]);
        assert(0 <= u < 0x10000);
        assert(data[2 * i] as int == u % 256);
        assert(data[2 * i + 1] as int == u / 256);
        assert(word_at(data, i) as int == u);
        assert(i16_from_u16(word_at(data, i)) == ws[i]);
    }
    assert(d =~= ws);
}

} // verus!
