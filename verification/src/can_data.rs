//! Decoding of CAN frame payloads: SENT values, SENT errors, self-test
//! replies and three-axis samples. Fields are returned as the integers on
//! the wire; scaling them to physical units is left to the caller.
use vstd::prelude::*;

verus! {

/// A SENT error report (CAN id 3).
#[derive(Clone, Copy, Debug, PartialEq, Eq, Structural)]
pub struct SentCanError {
    pub error_type: u8,
    pub t1_error: bool,
    pub t2_error: bool,
    pub s_error: bool,
}

/// Little-endian `i16` from two bytes.
pub open spec fn le_i16(lo: u8, hi: u8) -> int {
    let u = lo as int + 256 * hi as int;
    if u >= 32768 {
        u - 65536
    } else {
        u
    }
}

/// Little-endian `u32` from four bytes.
pub open spec fn le_u32(b0: u8, b1: u8, b2: u8, b3: u8) -> int {
    b0 as int + 256 * b1 as int + 65536 * b2 as int + 16777216 * b3 as int
}

/// Big-endian `i32` from four bytes.
pub open spec fn be_i32(b0: u8, b1: u8, b2: u8, b3: u8) -> int {
    let u = le_u32(b3, b2, b1, b0);
    if u >= 0x8000_0000 {
        u - 0x1_0000_0000
    } else {
        u
    }
}

/// Reads a little-endian `i16` at `offset`, if the two bytes are there.
fn read_i16_le(data: &[u8], offset: usize) -> (r: Option<i16>)
    ensures
        match r {
            Some(v) => offset + 2 <= data@.len() && v as int == le_i16(
                data@[offset as int],
                data@[offset + 1],
            ),
            None => offset + 2 > data@.len(),
        },
{
    if offset > data.len() || data.len() - offset < 2 {
        return None;
    }
    let u: u16 = (data[offset] as u16) + (data[offset + 1] as u16) * 256;
    if u >= 32768 {
        let w: i32 = (u as i32) - 65536;
        Some(w as i16)
    } else {
        Some(u as i16)
    }
}

/// Reads the bits of a little-endian `f32` at `offset` (the caller checks the bounds).
fn read_u32_le(data: &[u8], offset: usize) -> (r: u32)
    requires
        offset + 4 <= data@.len(),
    ensures
        r as int == le_u32(
            data@[offset as int],
            data@[offset + 1],
            data@[offset + 2],
            data@[offset + 3],
        ),
{
    (data[offset] as u32) + (data[offset + 1] as u32) * 256 + (data[offset + 2] as u32) * 65536
        + (data[offset + 3] as u32) * 16777216
}

/// The bit patterns of the five little-endian `f32` SENT values of a generic
/// SENT frame: an RX frame, not CAN id 1, 2 or 3, of at least 53 bytes.
/// Pairs are (sensor, bits): T1 angle at 25, T1 torque at 29, T2 angle at 1,
/// T2 torque at 5, S angle at 49.
pub fn decode_sent_value_bits(is_tx: bool, identifier: u32, data: &[u8]) -> (r: Option<
    [(usize, u32); 5],
>)
    ensures
        r is Some <==> (!is_tx && identifier != 1 && identifier != 2 && identifier != 3
            && data@.len() >= 53),
        r matches Some(a) ==> {
            &&& a@[0].0 == 0 && a@[0].1 as int == le_u32(data@[25], data@[26], data@[27], data@[28])
            &&& a@[1].0 == 1 && a@[1].1 as int == le_u32(data@[29], data@[30], data@[31], data@[32])
            &&& a@[2].0 == 2 && a@[2].1 as int == le_u32(data@[1], data@[2], data@[3], data@[4])
            &&& a@[3].0 == 3 && a@[3].1 as int == le_u32(data@[5], data@[6], data@[7], data@[8])
            &&& a@[4].0 == 4 && a@[4].1 as int == le_u32(data@[49], data@[50], data@[51], data@[52])
        },
{
    if is_tx || identifier == 1 || identifier == 2 || identifier == 3 {
        return None;
    }
    if data.len() < 53 {
        return None;
    }
    Some(
        [
            (0, read_u32_le(data, 25)),
            (1, read_u32_le(data, 29)),
            (2, read_u32_le(data, 1)),
            (3, read_u32_le(data, 5)),
            (4, read_u32_le(data, 49)),
        ],
    )
}

/// Raw fields of a SENT frame on CAN id 1, selected by its first byte.
#[derive(Clone, Copy, Debug, PartialEq, Eq, Structural)]
pub enum Sent1Raw {
    /// Flag 1: T2 angle (offset 6) and T2 torque (offset 8).
    T2 { angle: i16, torque: i16 },
    /// Flag 2: S angle (offset 4).
    S(i16),
}

/// Decodes a SENT frame on CAN id 1: an RX frame of at least 10 bytes whose
/// first byte is 1 (T2 values) or 2 (S value).
pub fn decode_sent_1_raw(is_tx: bool, identifier: u32, data: &[u8]) -> (r: Option<Sent1Raw>)
    ensures
        r is Some <==> (!is_tx && identifier == 1 && data@.len() >= 10 && (data@[0] == 1
            || data@[0] == 2)),
        r matches Some(Sent1Raw::T2 { angle, torque }) ==> data@[0] == 1 && angle as int
            == le_i16(data@[6], data@[7]) && torque as int == le_i16(data@[8], data@[9]),
        r matches Some(Sent1Raw::S(s)) ==> data@[0] == 2 && s as int == le_i16(
            data@[4],
            data@[5],
        ),
{
    if is_tx || identifier != 1 || data.len() < 10 {
        return None;
    }
    let flag = data[0];
    if flag == 1 {
        match (read_i16_le(data, 6), read_i16_le(data, 8)) {
            (Some(angle), Some(torque)) => Some(Sent1Raw::T2 { angle, torque }),
            _ => None,
        }
    } else if flag == 2 {
        match read_i16_le(data, 4) {
            Some(s) => Some(Sent1Raw::S(s)),
            None => None,
        }
    } else {
        None
    }
}

/// Decodes a SENT frame on CAN id 2: T1 angle (offset 6) and T1 torque
/// (offset 8) of an RX frame of at least 10 bytes.
pub fn decode_sent_2_raw(is_tx: bool, identifier: u32, data: &[u8]) -> (r: Option<(i16, i16)>)
    ensures
        r is Some <==> (!is_tx && identifier == 2 && data@.len() >= 10),
        r matches Some((angle, torque)) ==> angle as int == le_i16(data@[6], data@[7])
            && torque as int == le_i16(data@[8], data@[9]),
{
    if is_tx || identifier != 2 || data.len() < 10 {
        return None;
    }
    match (read_i16_le(data, 6), read_i16_le(data, 8)) {
        (Some(angle), Some(torque)) => Some((angle, torque)),
        _ => None,
    }
}

/// Decodes a SENT error report: an RX frame on CAN id 3 of at least 4 bytes.
pub fn decode_sent_error(is_tx: bool, identifier: u32, data: &[u8]) -> (r: Option<SentCanError>)
    ensures
        r is Some <==> (!is_tx && identifier == 3 && data@.len() >= 4),
        r matches Some(e) ==> e == (SentCanError {
            error_type: data@[0],
            t1_error: data@[1] != 0,
            t2_error: data@[2] != 0,
            s_error: data@[3] != 0,
        }),
{
    if is_tx || identifier != 3 {
        return None;
    }
    if data.len() < 4 {
        return None;
    }
    Some(
        SentCanError {
            error_type: data[0],
            t1_error: data[1] != 0,
            t2_error: data[2] != 0,
            s_error: data[3] != 0,
        },
    )
}

/// The CAN id of the three-axis sample for `sensor_id` (0x100, 0x102, 0x104).
pub open spec fn axis_sensor_of(identifier: u32) -> Option<usize> {
    if identifier == 0x100 {
        Some(0)
    } else if identifier == 0x102 {
        Some(1)
    } else if identifier == 0x104 {
        Some(2)
    } else {
        None
    }
}

/// Decodes a three-axis sample: CAN id 0x100, 0x102 or 0x104 (sensor 0, 1,
/// 2) with a big-endian `i32` in the first four of at least four bytes.
pub fn decode_axis_raw(identifier: u32, data: &[u8]) -> (r: Option<(usize, i32)>)
    ensures
        r is Some <==> (axis_sensor_of(identifier) is Some && data@.len() >= 4),
        r matches Some((sensor, raw)) ==> Some(sensor) == axis_sensor_of(identifier) && raw as int
            == be_i32(data@[0], data@[1], data@[2], data@[3]),
{
    let sensor_id: usize = if identifier == 0x100 {
        0
    } else if identifier == 0x102 {
        1
    } else if identifier == 0x104 {
        2
    } else {
        return None;
    };
    if data.len() < 4 {
        return None;
    }
    let u: u32 = (data[3] as u32) + (data[2] as u32) * 256 + (data[1] as u32) * 65536
        + (data[0] as u32) * 16777216;
    let raw: i32 = if u >= 0x8000_0000 {
        let w: i64 = (u as i64) - 0x1_0000_0000;
        w as i32
    } else {
        u as i32
    };
    Some((sensor_id, raw))
}

/// Decodes a self-test reply: an RX frame on CAN id 0x123 of at least 3
/// bytes; each axis passed when its byte is 1.
pub fn decode_self_test_response(is_tx: bool, identifier: u32, data: &[u8]) -> (r: Option<
    (bool, bool, bool),
>)
    ensures
        r is Some <==> (!is_tx && identifier == 0x123 && data@.len() >= 3),
        r matches Some(t) ==> t == (data@[0] == 1, data@[1] == 1, data@[2] == 1),
{
    if is_tx || identifier != 0x123 {
        return None;
    }
    if data.len() < 3 {
        return None;
    }
    Some((data[0] == 1, data[1] == 1, data[2] == 1))
}

} // verus!
