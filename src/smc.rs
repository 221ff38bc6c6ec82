//! The management-controller client: 4-character keys, the key-info cache,
//! request outcomes, and the decoding of values by their 4-character type tag.
use vstd::prelude::*;
use vstd::string::*;
use crate::dvfs::le_u32_at;
use crate::power::div_toward_zero;
use crate::reading::{
    exceeds, f32_reading, is_below, millis_spec, reading_below, reading_exceeds, reading_from_f32_bits,
    reading_millis, Reading, MANTISSA_LIMIT,
};
use crate::text::{all_ascii, has_prefix, lossy_text, starts_with, utf8_lossy};
use std::collections::HashMap;

verus! {

broadcast use vstd::std_specs::hash::group_hash_axioms;

/// Why a controller operation failed.
#[derive(Clone, Copy, Debug, PartialEq, Eq, Structural)]
pub enum SmcError {
    /// A key is not exactly four ASCII characters.
    BadKey,
    /// The platform refused the connection for want of privilege.
    AccessDenied,
    /// No service instance with the endpoint's name exists.
    EndpointNotFound,
    /// Opening the endpoint failed with this status.
    OpenFailed(i32),
    /// The call primitive failed with this status.
    CallFailed(i32),
    /// The controller answered with this non-zero result: the key is unsupported.
    ControllerError(u8),
    /// The payload is too short for its type, or longer than the reply holds.
    InvalidData,
    /// The value is not a number.
    NotNumeric,
}

/// `kIOReturnNotPrivileged`.
pub const NOT_PRIVILEGED: i32 = -536_870_174;

/// Command byte of a "read key info" request.
pub const CMD_READ_KEYINFO: u8 = 9;

/// Command byte of a "read bytes" request.
pub const CMD_READ_BYTES: u8 = 5;

/// Command byte of a "read key at index" request.
pub const CMD_READ_INDEX: u8 = 8;

/// Selector of the one call primitive, for every kind of request.
pub const SMC_SELECTOR: u32 = 2;

/// Bytes of payload a reply holds.
pub const PAYLOAD_LEN: usize = 32;

/// Four bytes as a big-endian 32-bit value.
pub open spec fn be4(a: int, b: int, c: int, d: int) -> int {
    a * 16777216 + b * 65536 + c * 256 + d
}

/// The big-endian 32-bit value that starts at byte `i`.
pub open spec fn be_u32_at(s: Seq<u8>, i: int) -> int {
    be4(s[i] as int, s[i + 1] as int, s[i + 2] as int, s[i + 3] as int)
}

/// The big-endian 16-bit value that starts at byte 0.
pub open spec fn be_u16(s: Seq<u8>) -> int {
    s[0] * 256 + s[1]
}

/// A 16-bit pattern read as two's complement.
pub open spec fn signed16(v: int) -> int {
    if v >= 32768 {
        v - 65536
    } else {
        v
    }
}

/// An 8-bit pattern read as two's complement.
pub open spec fn signed8(v: int) -> int {
    if v >= 128 {
        v - 256
    } else {
        v
    }
}

/// Byte `i` (0 is the first character) of a big-endian tag or key code.
pub open spec fn code_byte(code: u32, i: int) -> int {
    let c = code as int;
    if i == 0 {
        c / 16777216
    } else if i == 1 {
        (c / 65536) % 256
    } else if i == 2 {
        (c / 256) % 256
    } else {
        c % 256
    }
}

/// The code of a key: four ASCII characters, big-endian.
pub open spec fn key_code_spec(k: Seq<char>) -> Option<u32> {
    if k.len() == 4 && forall|i: int| 0 <= i < 4 ==> (k[i] as u32) < 128 {
        Some(be4(k[0] as u32 as int, k[1] as u32 as int, k[2] as u32 as int, k[3] as u32 as int) as u32)
    } else {
        None
    }
}

/// Encodes a key as the 32-bit value the protocol carries.
pub fn key_code(key: &str) -> (r: Result<u32, SmcError>)
    ensures
        r matches Ok(c) ==> key_code_spec(key@) == Some(c),
        r is Err ==> key_code_spec(key@) is None && r == Err::<u32, SmcError>(SmcError::BadKey),
{
    if key.unicode_len() != 4 {
        return Err(SmcError::BadKey);
    }
    let a = key.get_char(0) as u32;
    let b = key.get_char(1) as u32;
    let c = key.get_char(2) as u32;
    let d = key.get_char(3) as u32;
    if a >= 128 || b >= 128 || c >= 128 || d >= 128 {
        proof {
            assert(!(forall|i: int| 0 <= i < 4 ==> (key@[i] as u32) < 128)) by {
                if a >= 128 {
                    assert((key@[0] as u32) >= 128);
                } else if b >= 128 {
                    assert((key@[1] as u32) >= 128);
                } else if c >= 128 {
                    assert((key@[2] as u32) >= 128);
                } else {
                    assert((key@[3] as u32) >= 128);
                }
            }
        }
        return Err(SmcError::BadKey);
    }
    proof {
        assert forall|i: int| 0 <= i < 4 implies (key@[i] as u32) < 128 by {
            if i == 0 {
            } else if i == 1 {
            } else if i == 2 {
            } else {
            }
        }
    }
    Ok(a * 16777216 + b * 65536 + c * 256 + d)
}

/// The four bytes of a code, first character first.
fn code_bytes(code: u32) -> (r: (u8, u8, u8, u8))
    ensures
        r.0 == code_byte(code, 0),
        r.1 == code_byte(code, 1),
        r.2 == code_byte(code, 2),
        r.3 == code_byte(code, 3),
        code == be4(r.0 as int, r.1 as int, r.2 as int, r.3 as int),
{
    let a = (code / 16777216) as u8;
    let b = ((code / 65536) % 256) as u8;
    let c = ((code / 256) % 256) as u8;
    let d = (code % 256) as u8;
    (a, b, c, d)
}

/// Whether a byte is a printable, non-space ASCII character.
pub open spec fn is_graphic(b: int) -> bool {
    0x21 <= b <= 0x7e
}

/// The key a code spells, when all four of its characters are printable.
pub open spec fn key_from_code_spec(code: u32) -> Option<Seq<char>> {
    if is_graphic(code_byte(code, 0)) && is_graphic(code_byte(code, 1)) && is_graphic(
        code_byte(code, 2),
    ) && is_graphic(code_byte(code, 3)) {
        Some(
            seq![
                code_byte(code, 0) as u8 as char,
                code_byte(code, 1) as u8 as char,
                code_byte(code, 2) as u8 as char,
                code_byte(code, 3) as u8 as char,
            ],
        )
    } else {
        None
    }
}

/// The key that a "read key at index" reply names, or `None` when one of its
/// characters is not printable ASCII.
pub fn key_from_code(code: u32) -> (r: Option<String>)
    ensures
        r matches Some(s) ==> key_from_code_spec(code) == Some(s@),
        r is None ==> key_from_code_spec(code) is None,
{
    let (a, b, c, d) = code_bytes(code);
    if a < 0x21 || a > 0x7e || b < 0x21 || b > 0x7e || c < 0x21 || c > 0x7e || d < 0x21 || d > 0x7e {
        return None;
    }
    let bytes: Vec<u8> = vec![a, b, c, d];
    let s = utf8_lossy(bytes.as_slice());
    proof {
        assert(all_ascii(bytes@));
        assert(s@ =~= seq![a as char, b as char, c as char, d as char]);
    }
    Some(s)
}

/// Tag of a 32-bit float, little-endian: `flt `.
pub const TAG_FLT: u32 = 0x666c_7420;
/// `ui8 `.
pub const TAG_UI8: u32 = 0x7569_3820;
/// `ui16`.
pub const TAG_UI16: u32 = 0x7569_3136;
/// `ui32`.
pub const TAG_UI32: u32 = 0x7569_3332;
/// `si8 `.
pub const TAG_SI8: u32 = 0x7369_3820;
/// `si16`.
pub const TAG_SI16: u32 = 0x7369_3136;
/// `flag`.
pub const TAG_FLAG: u32 = 0x666c_6167;
/// `ch8*`.
pub const TAG_CH8: u32 = 0x6368_382a;

/// Fraction bits of the unsigned fixed-point tags `fpXY`, keyed by the two
/// suffix characters.
pub open spec fn fp_frac_bits(c: int, d: int) -> Option<u32> {
    if c == '1' as int && d == 'f' as int {
        Some(15)
    } else if c == '2' as int && d == 'e' as int {
        Some(14)
    } else if c == '3' as int && d == 'd' as int {
        Some(13)
    } else if c == '4' as int && d == 'c' as int {
        Some(12)
    } else if c == '5' as int && d == 'b' as int {
        Some(11)
    } else if c == '6' as int && d == 'a' as int {
        Some(10)
    } else if c == '7' as int && d == '9' as int {
        Some(9)
    } else if c == '8' as int && d == '8' as int {
        Some(8)
    } else if c == 'a' as int && d == '6' as int {
        Some(6)
    } else if c == 'c' as int && d == '4' as int {
        Some(4)
    } else if c == 'e' as int && d == '2' as int {
        Some(2)
    } else {
        None
    }
}

/// Fraction bits of the signed fixed-point tags `spXY`.
pub open spec fn sp_frac_bits(c: int, d: int) -> Option<u32> {
    if c == '1' as int && d == 'e' as int {
        Some(14)
    } else if c == '2' as int && d == 'd' as int {
        Some(13)
    } else if c == '3' as int && d == 'c' as int {
        Some(12)
    } else if c == '4' as int && d == 'b' as int {
        Some(11)
    } else if c == '5' as int && d == 'a' as int {
        Some(10)
    } else if c == '6' as int && d == '9' as int {
        Some(9)
    } else if c == '7' as int && d == '8' as int {
        Some(8)
    } else if c == '8' as int && d == '7' as int {
        Some(7)
    } else if c == '9' as int && d == '6' as int {
        Some(6)
    } else if c == 'b' as int && d == '4' as int {
        Some(4)
    } else if c == 'f' as int && d == '0' as int {
        Some(0)
    } else {
        None
    }
}

fn fp_bits(c: u8, d: u8) -> (r: Option<u32>)
    ensures
        r == fp_frac_bits(c as int, d as int),
{
    if c == 0x31 && d == 0x66 {
        Some(15)
    } else if c == 0x32 && d == 0x65 {
        Some(14)
    } else if c == 0x33 && d == 0x64 {
        Some(13)
    } else if c == 0x34 && d == 0x63 {
        Some(12)
    } else if c == 0x35 && d == 0x62 {
        Some(11)
    } else if c == 0x36 && d == 0x61 {
        Some(10)
    } else if c == 0x37 && d == 0x39 {
        Some(9)
    } else if c == 0x38 && d == 0x38 {
        Some(8)
    } else if c == 0x61 && d == 0x36 {
        Some(6)
    } else if c == 0x63 && d == 0x34 {
        Some(4)
    } else if c == 0x65 && d == 0x32 {
        Some(2)
    } else {
        None
    }
}

fn sp_bits(c: u8, d: u8) -> (r: Option<u32>)
    ensures
        r == sp_frac_bits(c as int, d as int),
{
    if c == 0x31 && d == 0x65 {
        Some(14)
    } else if c == 0x32 && d == 0x64 {
        Some(13)
    } else if c == 0x33 && d == 0x63 {
        Some(12)
    } else if c == 0x34 && d == 0x62 {
        Some(11)
    } else if c == 0x35 && d == 0x61 {
        Some(10)
    } else if c == 0x36 && d == 0x39 {
        Some(9)
    } else if c == 0x37 && d == 0x38 {
        Some(8)
    } else if c == 0x38 && d == 0x37 {
        Some(7)
    } else if c == 0x39 && d == 0x36 {
        Some(6)
    } else if c == 0x62 && d == 0x34 {
        Some(4)
    } else if c == 0x66 && d == 0x30 {
        Some(0)
    } else {
        None
    }
}

/// A controller value, typed by the tag that came with it. Floats are kept as
/// their IEEE-754 bits; fixed-point values as their raw integer and the number
/// of fraction bits.
#[derive(Clone, Debug)]
pub enum SMCValue {
    Float(u32),
    UnsignedFixed { raw: u16, frac_bits: u32 },
    SignedFixed { raw_signed: i16, frac_bits: u32 },
    U8(u8),
    U16(u16),
    U32(u32),
    I8(i8),
    I16(i16),
    Flag(bool),
    Text(String),
    Bytes(Vec<u8>),
}

pub open spec fn is_fp_tag(tag: u32) -> bool {
    code_byte(tag, 0) == 'f' as int && code_byte(tag, 1) == 'p' as int && fp_frac_bits(
        code_byte(tag, 2),
        code_byte(tag, 3),
    ) is Some
}

pub open spec fn is_sp_tag(tag: u32) -> bool {
    code_byte(tag, 0) == 's' as int && code_byte(tag, 1) == 'p' as int && sp_frac_bits(
        code_byte(tag, 2),
        code_byte(tag, 3),
    ) is Some
}

/// Bytes needed by each tag; a shorter payload is invalid.
pub open spec fn min_len(tag: u32) -> int {
    if tag == TAG_FLT || tag == TAG_UI32 {
        4
    } else if is_fp_tag(tag) || is_sp_tag(tag) || tag == TAG_UI16 || tag == TAG_SI16 {
        2
    } else if tag == TAG_UI8 || tag == TAG_SI8 || tag == TAG_FLAG {
        1
    } else {
        0
    }
}

/// How many bytes a short string may take: 8, or fewer when the payload is shorter.
pub open spec fn text_cap(data: Seq<u8>) -> int {
    if data.len() < 8 {
        data.len() as int
    } else {
        8
    }
}

/// Where a short string ends: at its first NUL within the first 8 bytes, or
/// after at most 8 bytes when there is none.
pub open spec fn text_end(data: Seq<u8>) -> int {
    if exists|i: int| 0 <= i < text_cap(data) && data[i] == 0 {
        choose|i: int| 0 <= i < text_cap(data) && data[i] == 0 && forall|j: int| 0 <= j < i ==> data[j] != 0
    } else {
        text_cap(data)
    }
}

/// The value a payload decodes to under its tag, given it is long enough.
pub open spec fn decoded(tag: u32, data: Seq<u8>, v: SMCValue) -> bool {
    if tag == TAG_FLT {
        v == SMCValue::Float(le_u32_at(data, 0) as u32)
    } else if is_fp_tag(tag) {
        v == SMCValue::UnsignedFixed {
            raw: be_u16(data) as u16,
            frac_bits: fp_frac_bits(code_byte(tag, 2), code_byte(tag, 3)).unwrap(),
        }
    } else if is_sp_tag(tag) {
        v == SMCValue::SignedFixed {
            raw_signed: signed16(be_u16(data)) as i16,
            frac_bits: sp_frac_bits(code_byte(tag, 2), code_byte(tag, 3)).unwrap(),
        }
    } else if tag == TAG_UI8 {
        v == SMCValue::U8(data[0])
    } else if tag == TAG_UI16 {
        v == SMCValue::U16(be_u16(data) as u16)
    } else if tag == TAG_UI32 {
        v == SMCValue::U32(be_u32_at(data, 0) as u32)
    } else if tag == TAG_SI8 {
        v == SMCValue::I8(signed8(data[0] as int) as i8)
    } else if tag == TAG_SI16 {
        v == SMCValue::I16(signed16(be_u16(data)) as i16)
    } else if tag == TAG_FLAG {
        v == SMCValue::Flag(data[0] != 0)
    } else if tag == TAG_CH8 {
        v matches SMCValue::Text(s) && s@ == lossy_text(data.subrange(0, text_end(data)))
    } else {
        v matches SMCValue::Bytes(b) && b@ == data
    }
}

/// A copy of some bytes.
pub fn copy_bytes(data: &[u8]) -> (r: Vec<u8>)
    ensures
        r@ == data@,
{
    let mut out: Vec<u8> = Vec::new();
    let mut i: usize = 0;
    while i < data.len()
        invariant
            i <= data@.len(),
            out@ == data@.subrange(0, i as int),
        decreases data@.len() - i,
    {
        out.push(data[i]);
        proof {
            assert(data@.subrange(0, i + 1) =~= data@.subrange(0, i as int).push(data@[i as int]));
        }
        i += 1;
    }
    assert(data@.subrange(0, data@.len() as int) =~= data@);
    out
}

fn be_u16_of(data: &[u8]) -> (r: u16)
    requires
        data@.len() >= 2,
    ensures
        r == be_u16(data@),
{
    data[0] as u16 * 256 + data[1] as u16
}

fn as_signed16(v: u16) -> (r: i16)
    ensures
        r == signed16(v as int),
{
    if v >= 32768 {
        (v as i32 - 65536) as i16
    } else {
        v as i16
    }
}

fn text_of(data: &[u8]) -> (r: String)
    ensures
        r@ == lossy_text(data@.subrange(0, text_end(data@))),
{
    let cap: usize = if data.len() < 8 {
        data.len()
    } else {
        8
    };
    let mut i: usize = 0;
    while i < cap
        invariant
            cap == text_cap(data@),
            cap <= data@.len(),
            i <= cap,
            forall|j: int| 0 <= j < i ==> data@[j] != 0,
        decreases cap - i,
    {
        if data[i] == 0 {
            proof {
                let e = text_end(data@);
                assert(0 <= e < cap && data@[e] == 0 && forall|j: int| 0 <= j < e ==> data@[j] != 0);
                if e < i {
                    assert(data@[e] != 0);
                }
                if e > i {
                    assert(data@[i as int] != 0);
                }
                assert(e == i);
            }
            let s = utf8_lossy(&data[0..i]);
            return s;
        }
        i += 1;
    }
    utf8_lossy(&data[0..cap])
}

/// Decodes a payload by its type tag (see `decoded`). A payload too short for
/// its tag is `InvalidData`; an unknown tag yields the raw bytes.
pub fn decode_value(data_type: u32, data: &[u8]) -> (r: Result<SMCValue, SmcError>)
    ensures
        r matches Ok(v) ==> data@.len() >= min_len(data_type) && decoded(data_type, data@, v),
        r is Err ==> data@.len() < min_len(data_type) && r == Err::<SMCValue, SmcError>(SmcError::InvalidData),
{
    let n = data.len();
    let (a, b, c, d) = code_bytes(data_type);
    let fp = if a == 0x66 && b == 0x70 {
        fp_bits(c, d)
    } else {
        None
    };
    let sp = if a == 0x73 && b == 0x70 {
        sp_bits(c, d)
    } else {
        None
    };
    if data_type == TAG_FLT {
        if n < 4 {
            return Err(SmcError::InvalidData);
        }
        let bits = data[0] as u32 + data[1] as u32 * 256 + data[2] as u32 * 65536 + data[3] as u32
            * 16777216;
        Ok(SMCValue::Float(bits))
    } else if fp.is_some() {
        if n < 2 {
            return Err(SmcError::InvalidData);
        }
        Ok(SMCValue::UnsignedFixed { raw: be_u16_of(data), frac_bits: fp.unwrap() })
    } else if sp.is_some() {
        if n < 2 {
            return Err(SmcError::InvalidData);
        }
        Ok(SMCValue::SignedFixed { raw_signed: as_signed16(be_u16_of(data)), frac_bits: sp.unwrap() })
    } else if data_type == TAG_UI8 {
        if n < 1 {
            return Err(SmcError::InvalidData);
        }
        Ok(SMCValue::U8(data[0]))
    } else if data_type == TAG_UI16 {
        if n < 2 {
            return Err(SmcError::InvalidData);
        }
        Ok(SMCValue::U16(be_u16_of(data)))
    } else if data_type == TAG_UI32 {
        if n < 4 {
            return Err(SmcError::InvalidData);
        }
        Ok(
            SMCValue::U32(
                data[0] as u32 * 16777216 + data[1] as u32 * 65536 + data[2] as u32 * 256
                    + data[3] as u32,
            ),
        )
    } else if data_type == TAG_SI8 {
        if n < 1 {
            return Err(SmcError::InvalidData);
        }
        let v: i8 = if data[0] >= 128 {
            (data[0] as i16 - 256) as i8
        } else {
            data[0] as i8
        };
        Ok(SMCValue::I8(v))
    } else if data_type == TAG_SI16 {
        if n < 2 {
            return Err(SmcError::InvalidData);
        }
        Ok(SMCValue::I16(as_signed16(be_u16_of(data))))
    } else if data_type == TAG_FLAG {
        if n < 1 {
            return Err(SmcError::InvalidData);
        }
        Ok(SMCValue::Flag(data[0] != 0))
    } else if data_type == TAG_CH8 {
        Ok(SMCValue::Text(text_of(data)))
    } else {
        Ok(SMCValue::Bytes(copy_bytes(data)))
    }
}

/// The number a value stands for, exactly; `None` for flags, text, raw bytes
/// and non-finite floats.
pub open spec fn reading_spec(v: SMCValue) -> Option<Reading> {
    match v {
        SMCValue::Float(bits) => f32_reading(bits),
        SMCValue::UnsignedFixed { raw, frac_bits } => Some(
            Reading { mantissa: raw as i64, exponent: -(frac_bits as int) as i32 },
        ),
        SMCValue::SignedFixed { raw_signed, frac_bits } => Some(
            Reading { mantissa: raw_signed as i64, exponent: -(frac_bits as int) as i32 },
        ),
        SMCValue::U8(x) => Some(Reading { mantissa: x as i64, exponent: 0 }),
        SMCValue::U16(x) => Some(Reading { mantissa: x as i64, exponent: 0 }),
        SMCValue::U32(x) => Some(Reading { mantissa: x as i64, exponent: 0 }),
        SMCValue::I8(x) => Some(Reading { mantissa: x as i64, exponent: 0 }),
        SMCValue::I16(x) => Some(Reading { mantissa: x as i64, exponent: 0 }),
        _ => None,
    }
}

/// The number a decoded value stands for, or `NotNumeric`.
pub fn value_reading(v: &SMCValue) -> (r: Result<Reading, SmcError>)
    requires
        v matches SMCValue::UnsignedFixed { frac_bits, .. } ==> frac_bits <= 15,
        v matches SMCValue::SignedFixed { frac_bits, .. } ==> frac_bits <= 15,
    ensures
        r matches Ok(x) ==> reading_spec(*v) == Some(x) && x.wf(),
        r is Err ==> reading_spec(*v) is None && r == Err::<Reading, SmcError>(SmcError::NotNumeric),
{
    match v {
        SMCValue::Float(bits) => match reading_from_f32_bits(*bits) {
            Some(x) => Ok(x),
            None => Err(SmcError::NotNumeric),
        },
        SMCValue::UnsignedFixed { raw, frac_bits } => Ok(
            Reading { mantissa: *raw as i64, exponent: 0 - (*frac_bits as i32) },
        ),
        SMCValue::SignedFixed { raw_signed, frac_bits } => Ok(
            Reading { mantissa: *raw_signed as i64, exponent: 0 - (*frac_bits as i32) },
        ),
        SMCValue::U8(x) => Ok(Reading { mantissa: *x as i64, exponent: 0 }),
        SMCValue::U16(x) => Ok(Reading { mantissa: *x as i64, exponent: 0 }),
        SMCValue::U32(x) => Ok(Reading { mantissa: *x as i64, exponent: 0 }),
        SMCValue::I8(x) => Ok(Reading { mantissa: *x as i64, exponent: 0 }),
        SMCValue::I16(x) => Ok(Reading { mantissa: *x as i64, exponent: 0 }),
        _ => Err(SmcError::NotNumeric),
    }
}

/// Decodes a payload and takes the number it stands for: the numeric read of
/// a key.
pub fn read_float(data_type: u32, data: &[u8]) -> (r: Result<Reading, SmcError>)
    ensures
        data@.len() < min_len(data_type) ==> r == Err::<Reading, SmcError>(SmcError::InvalidData),
        data@.len() >= min_len(data_type) ==> (forall|v: SMCValue| #[trigger] decoded(data_type, data@, v) ==>
            match reading_spec(v) {
                Some(x) => r == Ok::<Reading, SmcError>(x),
                None => r == Err::<Reading, SmcError>(SmcError::NotNumeric),
            }),
        r matches Ok(x) ==> x.wf(),
{
    let v = decode_value(data_type, data)?;
    proof {
        assert forall|w: SMCValue| #[trigger] decoded(data_type, data@, w) implies reading_spec(w) == reading_spec(v) by {
            if data_type == TAG_CH8 {
            } else if data_type != TAG_FLT && !is_fp_tag(data_type) && !is_sp_tag(data_type)
                && data_type != TAG_UI8 && data_type != TAG_UI16 && data_type != TAG_UI32
                && data_type != TAG_SI8 && data_type != TAG_SI16 && data_type != TAG_FLAG {
            }
        }
    }
    value_reading(&v)
}

/// Integers that the controller stores little-endian, whatever the generic
/// big-endian convention says: the battery keys.
pub trait FromLeBytes: Sized {
    /// Bytes the type takes.
    spec fn le_width() -> nat;

    /// The value of the first `le_width()` bytes, little-endian.
    spec fn le_value(data: Seq<u8>) -> Self;

    /// Reads the value from the start of `data`, or fails with `InvalidData`
    /// when `data` is too short.
    fn from_le_bytes(data: &[u8]) -> (r: Result<Self, SmcError>)
        ensures
            data@.len() >= Self::le_width() ==> r == Ok::<Self, SmcError>(Self::le_value(data@)),
            data@.len() < Self::le_width() ==> r == Err::<Self, SmcError>(SmcError::InvalidData),
    ;
}

/// The little-endian 16-bit value at the start.
pub open spec fn le_u16(s: Seq<u8>) -> int {
    s[0] + s[1] * 256
}

impl FromLeBytes for u16 {
    open spec fn le_width() -> nat {
        2
    }

    open spec fn le_value(data: Seq<u8>) -> u16 {
        le_u16(data) as u16
    }

    fn from_le_bytes(data: &[u8]) -> (r: Result<u16, SmcError>) {
        if data.len() >= 2 {
            Ok(data[0] as u16 + data[1] as u16 * 256)
        } else {
            Err(SmcError::InvalidData)
        }
    }
}

impl FromLeBytes for i16 {
    open spec fn le_width() -> nat {
        2
    }

    open spec fn le_value(data: Seq<u8>) -> i16 {
        signed16(le_u16(data)) as i16
    }

    fn from_le_bytes(data: &[u8]) -> (r: Result<i16, SmcError>) {
        if data.len() >= 2 {
            Ok(as_signed16(data[0] as u16 + data[1] as u16 * 256))
        } else {
            Err(SmcError::InvalidData)
        }
    }
}

impl FromLeBytes for u32 {
    open spec fn le_width() -> nat {
        4
    }

    open spec fn le_value(data: Seq<u8>) -> u32 {
        le_u32_at(data, 0) as u32
    }

    fn from_le_bytes(data: &[u8]) -> (r: Result<u32, SmcError>) {
        if data.len() >= 4 {
            Ok(data[0] as u32 + data[1] as u32 * 256 + data[2] as u32 * 65536 + data[3] as u32 * 16777216)
        } else {
            Err(SmcError::InvalidData)
        }
    }
}

impl FromLeBytes for i32 {
    open spec fn le_width() -> nat {
        4
    }

    open spec fn le_value(data: Seq<u8>) -> i32 {
        let v = le_u32_at(data, 0);
        (if v >= 0x8000_0000 {
            v - 0x1_0000_0000
        } else {
            v
        }) as i32
    }

    fn from_le_bytes(data: &[u8]) -> (r: Result<i32, SmcError>) {
        if data.len() >= 4 {
            let v = data[0] as u32 + data[1] as u32 * 256 + data[2] as u32 * 65536 + data[3] as u32 * 16777216;
            if v >= 0x8000_0000 {
                Ok((v as i64 - 0x1_0000_0000) as i32)
            } else {
                Ok(v as i32)
            }
        } else {
            Err(SmcError::InvalidData)
        }
    }
}

/// Size, type tag and attributes of a key, as "read key info" returns them.
#[derive(Clone, Copy, Debug, PartialEq, Eq, Structural)]
pub struct SmcKeyInfo {
    pub data_size: u32,
    pub data_type: u32,
    pub data_attributes: u8,
}

/// A connection to the management controller, with the metadata of the keys
/// read so far. Metadata does not change while the connection is open, so a
/// key's info is asked for once.
pub struct Smc {
    connection: u32,
    open: bool,
    key_cache: HashMap<u32, SmcKeyInfo>,
}

/// What the outcome of opening one candidate endpoint means.
pub enum ConnectStep {
    /// The connection is open.
    Connected(Smc),
    /// Opening failed for good.
    Failed(SmcError),
    /// The candidate gave no connection; try the next one.
    KeepLooking,
}

/// The name of the endpoint the client opens.
pub open spec fn endpoint_name() -> Seq<char> {
    "AppleSMCKeysEndpoint"@
}

/// Whether a service instance is the controller's keys endpoint.
pub fn is_smc_endpoint(name: &str) -> (r: bool)
    ensures
        r == (name@ == endpoint_name()),
{
    crate::text::str_eq(name, "AppleSMCKeysEndpoint")
}

/// Decides what the status and handle of opening the keys endpoint mean: a
/// zero status with a handle is a connection; the privilege error is
/// `AccessDenied`; another non-zero status is `OpenFailed`; a zero status
/// without a handle moves on to the next candidate.
pub fn get_smc_connection(open_status: i32, connection: u32) -> (r: ConnectStep)
    ensures
        open_status == 0 && connection != 0 <==> r is Connected,
        r matches ConnectStep::Connected(smc) ==> smc.handle() == connection && smc.is_open()
            && smc.cache().is_empty(),
        open_status == NOT_PRIVILEGED ==> r == ConnectStep::Failed(SmcError::AccessDenied),
        open_status != 0 && open_status != NOT_PRIVILEGED ==> r == ConnectStep::Failed(
            SmcError::OpenFailed(open_status),
        ),
        open_status == 0 && connection == 0 ==> r is KeepLooking,
{
    if open_status == 0 && connection != 0 {
        ConnectStep::Connected(Smc::new(connection))
    } else if open_status == NOT_PRIVILEGED {
        ConnectStep::Failed(SmcError::AccessDenied)
    } else if open_status != 0 {
        ConnectStep::Failed(SmcError::OpenFailed(open_status))
    } else {
        ConnectStep::KeepLooking
    }
}

/// Checks the two statuses of a reply: the call primitive's, then the
/// controller's own result byte.
pub fn check_reply(call_status: i32, smc_result: u8) -> (r: Result<(), SmcError>)
    ensures
        call_status != 0 ==> r == Err::<(), SmcError>(SmcError::CallFailed(call_status)),
        call_status == 0 && smc_result != 0 ==> r == Err::<(), SmcError>(SmcError::ControllerError(smc_result)),
        call_status == 0 && smc_result == 0 ==> r is Ok,
{
    if call_status != 0 {
        Err(SmcError::CallFailed(call_status))
    } else if smc_result != 0 {
        Err(SmcError::ControllerError(smc_result))
    } else {
        Ok(())
    }
}

impl Smc {
    /// The cached metadata, by key code.
    pub closed spec fn cache(&self) -> Map<u32, SmcKeyInfo> {
        self.key_cache@
    }

    /// The connection handle.
    pub closed spec fn handle(&self) -> u32 {
        self.connection
    }

    /// Whether the connection is still to be closed.
    pub closed spec fn is_open(&self) -> bool {
        self.open
    }

    /// What closing does: an open client hands out its handle, which its owner
    /// then closes, and is open no more; a closed one hands out nothing.
    pub open spec fn closes(before: Smc, after: Smc, r: Option<u32>) -> bool {
        &&& !after.is_open()
        &&& after.handle() == before.handle()
        &&& r == (if before.is_open() {
            Some(before.handle())
        } else {
            None
        })
    }

    /// Closes the client: returns the handle to close while it is open, and
    /// nothing once it is closed.
    pub fn close(&mut self) -> (r: Option<u32>)
        ensures
            Smc::closes(*old(self), *final(self), r),
    {
        if self.open {
            self.open = false;
            Some(self.connection)
        } else {
            None
        }
    }

    /// The connection handle, which the owner passes to the call primitive.
    pub fn connection(&self) -> (r: u32)
        ensures
            r == self.handle(),
    {
        self.connection
    }

    /// A client for an open connection, with nothing cached.
    pub fn new(connection: u32) -> (r: Smc)
        ensures
            r.handle() == connection,
            r.is_open() == (connection != 0),
            r.cache().is_empty(),
    {
        Smc { connection, open: connection != 0, key_cache: HashMap::new() }
    }

    /// The cached metadata of a key code, if it was read before.
    pub fn cached_info(&self, code: u32) -> (r: Option<SmcKeyInfo>)
        ensures
            r == (if self.cache().contains_key(code) {
                Some(self.cache()[code])
            } else {
                None
            }),
    {
        match self.key_cache.get(&code) {
            Some(info) => Some(*info),
            None => None,
        }
    }

    /// Takes the reply to "read key info": on success the metadata is cached
    /// under the key's code and returned; on failure nothing changes.
    pub fn accept_key_info(&mut self, code: u32, call_status: i32, smc_result: u8, info: SmcKeyInfo) -> (r: Result<
        SmcKeyInfo,
        SmcError,
    >)
        ensures
            final(self).handle() == old(self).handle(),
            final(self).is_open() == old(self).is_open(),
            r is Ok <==> call_status == 0 && smc_result == 0,
            r matches Ok(i) ==> i == info && final(self).cache() == old(self).cache().insert(code, info),
            r is Err ==> final(self).cache() == old(self).cache() && r == Err::<SmcKeyInfo, SmcError>(
                if call_status != 0 {
                    SmcError::CallFailed(call_status)
                } else {
                    SmcError::ControllerError(smc_result)
                },
            ),
    {
        check_reply(call_status, smc_result)?;
        self.key_cache.insert(code, info);
        Ok(info)
    }

    /// Takes the reply to "read bytes": the first `data_size` bytes of the
    /// payload. A size beyond what the payload holds is `InvalidData`.
    pub fn key_payload(call_status: i32, smc_result: u8, payload: &[u8], info: SmcKeyInfo) -> (r: Result<
        Vec<u8>,
        SmcError,
    >)
        ensures
            call_status != 0 ==> r == Err::<Vec<u8>, SmcError>(SmcError::CallFailed(call_status)),
            call_status == 0 && smc_result != 0 ==> r == Err::<Vec<u8>, SmcError>(
                SmcError::ControllerError(smc_result),
            ),
            call_status == 0 && smc_result == 0 && info.data_size > payload@.len() ==> r == Err::<
                Vec<u8>,
                SmcError,
            >(SmcError::InvalidData),
            r matches Ok(b) ==> call_status == 0 && smc_result == 0 && info.data_size <= payload@.len()
                && b@ == payload@.subrange(0, info.data_size as int),
            call_status == 0 && smc_result == 0 && info.data_size <= payload@.len() ==> r is Ok,
    {
        check_reply(call_status, smc_result)?;
        if info.data_size as usize > payload.len() {
            return Err(SmcError::InvalidData);
        }
        Ok(copy_bytes(&payload[0..info.data_size as usize]))
    }

    /// The number of keys, from the payload of `#KEY`: a big-endian 32-bit count.
    pub fn read_num_keys(data: &[u8]) -> (r: Result<u32, SmcError>)
        ensures
            data@.len() >= 4 ==> r == Ok::<u32, SmcError>(be_u32_at(data@, 0) as u32),
            data@.len() < 4 ==> r == Err::<u32, SmcError>(SmcError::InvalidData),
    {
        if data.len() >= 4 {
            Ok(data[0] as u32 * 16777216 + data[1] as u32 * 65536 + data[2] as u32 * 256 + data[3] as u32)
        } else {
            Err(SmcError::InvalidData)
        }
    }

    /// The keys that "read key at index" named, for each index in turn (`None`
    /// where the request failed), keeping those of four printable characters.
    pub fn read_all_keys(index_replies: &[Option<u32>]) -> (r: Vec<String>)
        ensures
            r@.map_values(|s: String| s@) == printable_keys(index_replies@, index_replies@.len() as int),
    {
        let mut keys: Vec<String> = Vec::new();
        let mut i: usize = 0;
        while i < index_replies.len()
            invariant
                i <= index_replies@.len(),
                keys@.map_values(|s: String| s@) == printable_keys(index_replies@, i as int),
            decreases index_replies@.len() - i,
        {
            if let Some(code) = index_replies[i] {
                if let Some(k) = key_from_code(code) {
                    keys.push(k);
                    proof {
                        assert(keys@.map_values(|s: String| s@) =~= printable_keys(index_replies@, i as int).push(k@));
                    }
                }
            }
            i += 1;
        }
        keys
    }

    /// Reads a little-endian payload as `T`.
    pub fn read_le<T: FromLeBytes>(data: &[u8]) -> (r: Result<T, SmcError>)
        ensures
            data@.len() >= T::le_width() ==> r == Ok::<T, SmcError>(T::le_value(data@)),
            data@.len() < T::le_width() ==> r == Err::<T, SmcError>(SmcError::InvalidData),
    {
        T::from_le_bytes(data)
    }
}

/// A key and the number read from it; `None` where the read or the decode failed.
pub struct KeyReading {
    pub key: String,
    pub value: Option<Reading>,
}

/// Whether a reading is a plausible temperature: strictly between -50 and 150 °C.
pub open spec fn in_band(r: Reading) -> bool {
    r.wf() && exceeds(r, -50) && is_below(r, 150)
}

/// CPU sensors start with `Tp` or `Te`.
pub open spec fn is_cpu_sensor(k: Seq<char>) -> bool {
    has_prefix(k, "Tp"@) || has_prefix(k, "Te"@)
}

/// GPU sensors start with `Tg`.
pub open spec fn is_gpu_sensor(k: Seq<char>) -> bool {
    has_prefix(k, "Tg"@)
}

/// Whether a key reading is an accepted sensor of the GPU (`gpu`) or of the CPU.
pub open spec fn accepted(kr: KeyReading, gpu: bool) -> bool {
    &&& (if gpu {
        is_gpu_sensor(kr.key@)
    } else {
        is_cpu_sensor(kr.key@)
    })
    &&& kr.value matches Some(r) && in_band(r)
}

/// The keys of the accepted sensors among the first `k` readings.
pub open spec fn accepted_keys(rs: Seq<KeyReading>, k: int, gpu: bool) -> Seq<Seq<char>>
    decreases k,
{
    if k <= 0 {
        Seq::empty()
    } else if accepted(rs[k - 1], gpu) {
        accepted_keys(rs, k - 1, gpu).push(rs[k - 1].key@)
    } else {
        accepted_keys(rs, k - 1, gpu)
    }
}

/// The values in millidegrees of the accepted sensors among the first `k` readings.
pub open spec fn accepted_millis(rs: Seq<KeyReading>, k: int, gpu: bool) -> Seq<int>
    decreases k,
{
    if k <= 0 {
        Seq::empty()
    } else if accepted(rs[k - 1], gpu) {
        accepted_millis(rs, k - 1, gpu).push(millis_spec(rs[k - 1].value.unwrap()))
    } else {
        accepted_millis(rs, k - 1, gpu)
    }
}

pub open spec fn sum_of(s: Seq<int>) -> int
    decreases s.len(),
{
    if s.len() == 0 {
        0
    } else {
        sum_of(s.drop_last()) + s.last()
    }
}

/// The mean in millidegrees of the accepted sensors, rounded toward zero;
/// `None` when no sensor is accepted.
pub open spec fn mean_temperature_spec(rs: Seq<KeyReading>, gpu: bool) -> Option<int> {
    let m = accepted_millis(rs, rs.len() as int, gpu);
    if m.len() == 0 {
        None
    } else {
        Some(div_toward_zero(sum_of(m), m.len() as int))
    }
}

fn in_band_exec(r: Reading) -> (b: bool)
    ensures
        b == in_band(r),
{
    r.mantissa >= -MANTISSA_LIMIT && r.mantissa <= MANTISSA_LIMIT && r.exponent >= -149
        && r.exponent <= 104 && reading_exceeds(r, -50) && reading_below(r, 150)
}

fn is_accepted(kr: &KeyReading, gpu: bool) -> (b: bool)
    ensures
        b == accepted(*kr, gpu),
{
    proof {
        reveal_strlit("Tp");
        reveal_strlit("Te");
        reveal_strlit("Tg");
    }
    let kind = if gpu {
        starts_with(kr.key.as_str(), "Tg")
    } else {
        starts_with(kr.key.as_str(), "Tp") || starts_with(kr.key.as_str(), "Te")
    };
    kind && match kr.value {
        Some(r) => in_band_exec(r),
        None => false,
    }
}

/// Whether a key names a temperature sensor: it starts with `T`.
pub fn is_temperature_key(key: &str) -> (r: bool)
    ensures
        r == has_prefix(key@, "T"@),
{
    starts_with(key, "T")
}

impl Smc {
    /// Sorts the numeric readings of temperature keys into CPU sensors
    /// (`Tp`, `Te`) and GPU sensors (`Tg`), keeping only keys whose value lies
    /// strictly between -50 and 150 °C; anything else is sensor noise.
    pub fn discover_temperature_sensors(readings: &[KeyReading]) -> (r: (Vec<String>, Vec<String>))
        ensures
            r.0@.map_values(|s: String| s@) == accepted_keys(readings@, readings@.len() as int, false),
            r.1@.map_values(|s: String| s@) == accepted_keys(readings@, readings@.len() as int, true),
    {
        let mut cpu: Vec<String> = Vec::new();
        let mut gpu: Vec<String> = Vec::new();
        let mut i: usize = 0;
        while i < readings.len()
            invariant
                i <= readings@.len(),
                cpu@.map_values(|s: String| s@) == accepted_keys(readings@, i as int, false),
                gpu@.map_values(|s: String| s@) == accepted_keys(readings@, i as int, true),
            decreases readings@.len() - i,
        {
            let kr = &readings[i];
            if is_accepted(kr, false) {
                let k = kr.key.clone();
                cpu.push(k);
                proof {
                    assert(cpu@.map_values(|s: String| s@) =~= accepted_keys(readings@, i as int, false).push(kr.key@));
                }
            }
            if is_accepted(kr, true) {
                let k = kr.key.clone();
                gpu.push(k);
                proof {
                    assert(gpu@.map_values(|s: String| s@) =~= accepted_keys(readings@, i as int, true).push(kr.key@));
                }
            }
            i += 1;
        }
        (cpu, gpu)
    }

    /// Mean temperature in millidegrees Celsius of the accepted GPU sensors
    /// (`gpu`) or CPU sensors, or `None` when there are none.
    pub fn mean_temperature(readings: &[KeyReading], gpu: bool) -> (r: Option<i64>)
        requires
            readings@.len() <= u32::MAX,
        ensures
            r matches Some(t) ==> mean_temperature_spec(readings@, gpu) == Some(t as int),
            r is None ==> mean_temperature_spec(readings@, gpu) is None,
    {
        let mut sum: i64 = 0;
        let mut count: u32 = 0;
        let mut i: usize = 0;
        while i < readings.len()
            invariant
                i <= readings@.len() <= u32::MAX,
                count == accepted_millis(readings@, i as int, gpu).len(),
                count <= i,
                sum == sum_of(accepted_millis(readings@, i as int, gpu)),
                -50_000 * count <= sum <= 150_000 * count,
            decreases readings@.len() - i,
        {
            let kr = &readings[i];
            if is_accepted(kr, gpu) {
                let r = kr.value.unwrap();
                let t = reading_millis(r);
                proof {
                    let prev = accepted_millis(readings@, i as int, gpu);
                    assert(prev.push(t as int).drop_last() =~= prev);
                }
                sum = sum + t;
                count = count + 1;
            }
            i += 1;
        }
        if count == 0 {
            return None;
        }
        let c = count as i64;
        if sum >= 0 {
            Some(sum / c)
        } else {
            proof {
                assert((-sum) / (c as int) <= -sum) by (nonlinear_arith)
                    requires
                        c >= 1,
                        sum < 0,
                ;
            }
            Some(-((-sum) / c))
        }
    }

    /// Mean CPU temperature in millidegrees Celsius.
    pub fn get_cpu_temperature(readings: &[KeyReading]) -> (r: Option<i64>)
        requires
            readings@.len() <= u32::MAX,
        ensures
            r matches Some(t) ==> mean_temperature_spec(readings@, false) == Some(t as int),
            r is None ==> mean_temperature_spec(readings@, false) is None,
    {
        Smc::mean_temperature(readings, false)
    }

    /// Mean GPU temperature in millidegrees Celsius.
    pub fn get_gpu_temperature(readings: &[KeyReading]) -> (r: Option<i64>)
        requires
            readings@.len() <= u32::MAX,
        ensures
            r matches Some(t) ==> mean_temperature_spec(readings@, true) == Some(t as int),
            r is None ==> mean_temperature_spec(readings@, true) is None,
    {
        Smc::mean_temperature(readings, true)
    }
}

/// A sensor outside the open band (-50, 150) °C takes no part in the CPU or
/// GPU mean, whatever it read: the mean over the readings is the mean over
/// the readings without it.
pub proof fn lemma_out_of_band_excluded(rs: Seq<KeyReading>, j: int, gpu: bool)
    requires
        0 <= j < rs.len(),
        rs[j].value matches Some(r) && !in_band(r),
    ensures
        mean_temperature_spec(rs, gpu) == mean_temperature_spec(rs.remove(j), gpu),
{
    lemma_millis_skip(rs, j, gpu, rs.len() as int);
}

/// Whether `v` is the millidegree value of an in-band sensor of the kind
/// among the first `k` readings.
pub open spec fn from_in_band_sensor(rs: Seq<KeyReading>, gpu: bool, k: int, v: int) -> bool {
    exists|j: int|
        0 <= j < k && #[trigger] accepted(rs[j], gpu) && (rs[j].value matches Some(r) && in_band(r))
            && v == millis_spec(rs[j].value.unwrap())
}

/// Whether `v` is among the values averaged.
pub open spec fn averaged(m: Seq<int>, v: int) -> bool {
    exists|i: int| 0 <= i < m.len() && #[trigger] m[i] == v
}

/// The CPU or GPU mean is taken over exactly the sensors of that kind whose
/// reading lies strictly between -50 and 150 °C: each value averaged is the
/// millidegree value of such a sensor, and each such sensor supplies one.
pub proof fn lemma_mean_over_in_band_sensors(rs: Seq<KeyReading>, gpu: bool, k: int)
    requires
        0 <= k <= rs.len(),
    ensures
        forall|i: int| 0 <= i < accepted_millis(rs, k, gpu).len() ==> from_in_band_sensor(
            rs,
            gpu,
            k,
            #[trigger] accepted_millis(rs, k, gpu)[i],
        ),
        forall|j: int| 0 <= j < k && #[trigger] accepted(rs[j], gpu) ==> averaged(
            accepted_millis(rs, k, gpu),
            millis_spec(rs[j].value.unwrap()),
        ),
    decreases k,
{
    if k > 0 {
        lemma_mean_over_in_band_sensors(rs, gpu, k - 1);
        let prev = accepted_millis(rs, k - 1, gpu);
        let cur = accepted_millis(rs, k, gpu);
        assert forall|i: int| 0 <= i < cur.len() implies from_in_band_sensor(rs, gpu, k, #[trigger] cur[i]) by {
            if i < prev.len() {
                assert(cur[i] == prev[i]);
                assert(from_in_band_sensor(rs, gpu, k - 1, prev[i]));
                let j = choose|j: int|
                    0 <= j < k - 1 && #[trigger] accepted(rs[j], gpu) && (rs[j].value matches Some(r) && in_band(r))
                        && prev[i] == millis_spec(rs[j].value.unwrap());
                assert(0 <= j < k && accepted(rs[j], gpu));
            } else {
                assert(accepted(rs[k - 1], gpu));
                assert(cur[i] == millis_spec(rs[k - 1].value.unwrap()));
            }
        }
        assert forall|j: int| 0 <= j < k && #[trigger] accepted(rs[j], gpu) implies averaged(
            cur,
            millis_spec(rs[j].value.unwrap()),
        ) by {
            if j < k - 1 {
                assert(averaged(prev, millis_spec(rs[j].value.unwrap())));
                let i = choose|i: int| 0 <= i < prev.len() && #[trigger] prev[i] == millis_spec(rs[j].value.unwrap());
                assert(cur[i] == prev[i]);
            } else {
                assert(cur[prev.len() as int] == millis_spec(rs[j].value.unwrap()));
            }
        }
    }
}

/// Opening a client and closing it twice releases its connection exactly once.
pub proof fn lemma_client_closes_once(a: Smc, b: Smc, c: Smc, r1: Option<u32>, r2: Option<u32>)
    requires
        a.is_open(),
        Smc::closes(a, b, r1),
        Smc::closes(b, c, r2),
    ensures
        r1 == Some(a.handle()),
        r2 is None,
        !c.is_open(),
{
}

proof fn lemma_millis_skip(rs: Seq<KeyReading>, j: int, gpu: bool, k: int)
    requires
        0 <= j < rs.len(),
        j < k <= rs.len(),
        !accepted(rs[j], gpu),
    ensures
        accepted_millis(rs, k, gpu) == accepted_millis(rs.remove(j), k - 1, gpu),
    decreases k,
{
    let t = rs.remove(j);
    if k - 1 > j {
        lemma_millis_skip(rs, j, gpu, k - 1);
        assert(t[k - 2] == rs[k - 1]);
    } else {
        lemma_millis_prefix(rs, j, gpu, j);
    }
}

proof fn lemma_millis_prefix(rs: Seq<KeyReading>, j: int, gpu: bool, k: int)
    requires
        0 <= j < rs.len(),
        0 <= k <= j,
    ensures
        accepted_millis(rs, k, gpu) == accepted_millis(rs.remove(j), k, gpu),
    decreases k,
{
    if k > 0 {
        lemma_millis_prefix(rs, j, gpu, k - 1);
        assert(rs.remove(j)[k - 1] == rs[k - 1]);
    }
}

/// The stage at which a key of the full dump failed.
#[derive(Clone, Copy, Debug, PartialEq, Eq, Structural)]
pub enum DumpError {
    Info(SmcError),
    Read(SmcError),
    Parse(SmcError),
}

/// One key of the full dump: its type and size, raw bytes and decoded value
/// as far as they could be read, and the failure that stopped it, if any.
#[derive(Debug)]
pub struct SmcKeyData {
    pub key: String,
    /// The key's big-endian code; for printable keys its order is the key's
    /// alphabetical order.
    pub code: u32,
    pub type_str: String,
    pub size: u32,
    pub value: Option<SMCValue>,
    pub raw_bytes: Vec<u8>,
    pub error: Option<DumpError>,
}

/// Every key the controller lists, sorted by key.
#[derive(Debug)]
pub struct SmcDebugData {
    pub total_keys: u32,
    pub keys: Vec<SmcKeyData>,
}

/// The text of a type tag: its four bytes as lossy UTF-8.
pub open spec fn tag_text(t: u32) -> Seq<char> {
    lossy_text(
        seq![code_byte(t, 0) as u8, code_byte(t, 1) as u8, code_byte(t, 2) as u8, code_byte(t, 3) as u8],
    )
}

/// Builds the dump entry of one key from the outcome of reading its info and,
/// when that succeeded, of reading its bytes (`data` is ignored otherwise).
pub fn key_entry(key: String, code: u32, info: Result<SmcKeyInfo, SmcError>, data: Result<Vec<u8>, SmcError>) -> (r:
    SmcKeyData)
    ensures
        r.key@ == key@,
        r.code == code,
        info matches Err(e) ==> r.error == Some(DumpError::Info(e)) && r.type_str@.len() == 0
            && r.size == 0 && r.value is None && r.raw_bytes@.len() == 0,
        info matches Ok(i) ==> r.type_str@ == tag_text(i.data_type) && r.size == i.data_size,
        data matches Err(e) ==> info is Err || r.error == Some(DumpError::Read(e)) && r.value is None
            && r.raw_bytes@.len() == 0,
        info matches Ok(i) ==> data matches Ok(d) ==> r.raw_bytes@ == d@ && (if d@.len() >= min_len(
            i.data_type,
        ) {
            r.error is None && (r.value matches Some(v) && decoded(i.data_type, d@, v))
        } else {
            r.error == Some(DumpError::Parse(SmcError::InvalidData)) && r.value is None
        }),
{
    match info {
        Err(e) => SmcKeyData {
            key,
            code,
            type_str: String::new(),
            size: 0,
            value: None,
            raw_bytes: Vec::new(),
            error: Some(DumpError::Info(e)),
        },
        Ok(i) => {
            let (a, b, c, d) = code_bytes(i.data_type);
            let tag_bytes: Vec<u8> = vec![a, b, c, d];
            let type_str = utf8_lossy(tag_bytes.as_slice());
            proof {
                assert(tag_bytes@ =~= seq![
                    code_byte(i.data_type, 0) as u8,
                    code_byte(i.data_type, 1) as u8,
                    code_byte(i.data_type, 2) as u8,
                    code_byte(i.data_type, 3) as u8,
                ]);
            }
            match data {
                Err(e) => SmcKeyData {
                    key,
                    code,
                    type_str,
                    size: i.data_size,
                    value: None,
                    raw_bytes: Vec::new(),
                    error: Some(DumpError::Read(e)),
                },
                Ok(bytes) => match decode_value(i.data_type, bytes.as_slice()) {
                    Ok(v) => SmcKeyData {
                        key,
                        code,
                        type_str,
                        size: i.data_size,
                        value: Some(v),
                        raw_bytes: bytes,
                        error: None,
                    },
                    Err(e) => SmcKeyData {
                        key,
                        code,
                        type_str,
                        size: i.data_size,
                        value: None,
                        raw_bytes: bytes,
                        error: Some(DumpError::Parse(e)),
                    },
                },
            }
        },
    }
}

/// Whether entries are in order of their codes.
pub open spec fn sorted_by_code(s: Seq<SmcKeyData>) -> bool {
    forall|i: int, j: int| 0 <= i < j < s.len() ==> s[i].code <= s[j].code
}

/// The full dump: the entries of every listed key, sorted by key.
pub fn get_all_smc_data(total_keys: u32, entries: Vec<SmcKeyData>) -> (r: SmcDebugData)
    ensures
        r.total_keys == total_keys,
        sorted_by_code(r.keys@),
        r.keys@.to_multiset() == entries@.to_multiset(),
{
    broadcast use vstd::seq_lib::group_to_multiset_ensures;

    let ghost orig = entries@;
    let mut rest = entries;
    let mut out: Vec<SmcKeyData> = Vec::new();
    proof {
        assert(orig.subrange(0, 0) =~= Seq::<SmcKeyData>::empty());
        assert(orig.subrange(0, orig.len() as int) =~= orig);
    }
    while rest.len() > 0
        invariant
            sorted_by_code(out@),
            out@.len() + rest@.len() == orig.len(),
            rest@ == orig.subrange(out@.len() as int, orig.len() as int),
            out@.to_multiset() == orig.subrange(0, out@.len() as int).to_multiset(),
        decreases rest@.len(),
    {
        let ghost k: int = out@.len() as int;
        let e = rest.remove(0);
        let mut pos: usize = 0;
        while pos < out.len() && out[pos].code <= e.code
            invariant
                pos <= out@.len(),
                forall|j: int| 0 <= j < pos ==> out@[j].code <= e.code,
            decreases out@.len() - pos,
        {
            pos += 1;
        }
        let ghost before = out@;
        out.insert(pos, e);
        proof {
            vstd::seq_lib::to_multiset_insert(before, pos as int, e);
            assert(e == orig[k]);
            assert(orig.subrange(0, k + 1) =~= orig.subrange(0, k).push(e));
            vstd::seq_lib::to_multiset_build(orig.subrange(0, k), e);
            assert(rest@ =~= orig.subrange(k + 1, orig.len() as int));
            assert forall|i: int, j: int| 0 <= i < j < out@.len() implies out@[i].code <= out@[j].code by {
                if j < pos {
                    assert(out@[i] == before[i] && out@[j] == before[j]);
                } else if j == pos {
                    assert(out@[i] == before[i]);
                } else if i < pos {
                    assert(out@[i] == before[i] && out@[j] == before[j - 1]);
                    if pos < before.len() {
                        assert(before[pos as int].code > e.code);
                        assert(before[i].code <= before[pos as int].code || i == pos);
                    }
                } else if i == pos {
                    assert(out@[j] == before[j - 1]);
                    assert(before[pos as int].code > e.code);
                    assert(j - 1 == pos || before[pos as int].code <= before[j - 1].code);
                } else {
                    assert(out@[i] == before[i - 1] && out@[j] == before[j - 1]);
                }
            }
        }
    }
    SmcDebugData { total_keys, keys: out }
}

/// Battery state in the controller's own integer units.
#[derive(Clone, Copy, Debug, PartialEq, Eq, Structural)]
pub struct BatteryMetrics {
    /// Remaining capacity in mAh (`B0CC`).
    pub current_capacity: Option<u16>,
    /// Capacity at full charge in mAh (`B0FC`).
    pub full_charge_capacity: Option<u16>,
    /// Voltage in mV (`B0AV`).
    pub voltage_mv: Option<u16>,
    /// Current in mA, negative while discharging (`B0AC`).
    pub current_ma: Option<i16>,
    /// Temperature (`TB0T`, else `B0TE`).
    pub temperature: Option<Reading>,
    /// Charge cycles (`B0CT`).
    pub cycle_count: Option<u32>,
    /// Remaining over full-charge capacity, in parts per million, rounded down.
    pub health_ppm: Option<u64>,
}

/// Remaining over full-charge capacity in parts per million, when both are
/// known and the full-charge capacity is not zero.
pub open spec fn health_spec(cc: Option<u16>, fc: Option<u16>) -> Option<u64> {
    match (cc, fc) {
        (Some(c), Some(f)) => if f > 0 {
            Some((c * 1_000_000 / f as int) as u64)
        } else {
            None
        },
        _ => None,
    }
}

/// Assembles the battery metrics from the little-endian battery keys and the
/// two temperature keys; the first temperature that was read wins.
pub fn get_battery_metrics(
    current_capacity: Option<u16>,
    full_charge_capacity: Option<u16>,
    voltage_mv: Option<u16>,
    current_ma: Option<i16>,
    tb0t: Option<Reading>,
    b0te: Option<Reading>,
    cycles: Option<u16>,
) -> (r: BatteryMetrics)
    ensures
        r == (BatteryMetrics {
            current_capacity,
            full_charge_capacity,
            voltage_mv,
            current_ma,
            temperature: if tb0t is Some {
                tb0t
            } else {
                b0te
            },
            cycle_count: match cycles {
                Some(c) => Some(c as u32),
                None => None,
            },
            health_ppm: health_spec(current_capacity, full_charge_capacity),
        }),
{
    let health_ppm = match (current_capacity, full_charge_capacity) {
        (Some(c), Some(f)) => if f > 0 {
            Some(c as u64 * 1_000_000 / f as u64)
        } else {
            None
        },
        _ => None,
    };
    BatteryMetrics {
        current_capacity,
        full_charge_capacity,
        voltage_mv,
        current_ma,
        temperature: if tb0t.is_some() {
            tb0t
        } else {
            b0te
        },
        cycle_count: match cycles {
            Some(c) => Some(c as u32),
            None => None,
        },
        health_ppm,
    }
}

/// Whether a reading lies strictly between 0 and 150 °C, the band of the
/// labelled sensor list.
pub open spec fn in_label_band(r: Reading) -> bool {
    r.wf() && exceeds(r, 0) && is_below(r, 150)
}

/// The labelled readings among the first `k` that lie in the label band.
pub open spec fn labelled_in_band(rs: Seq<(String, Option<Reading>)>, k: int) -> Seq<(Seq<char>, Reading)>
    decreases k,
{
    if k <= 0 {
        Seq::empty()
    } else {
        let prev = labelled_in_band(rs, k - 1);
        match rs[k - 1].1 {
            Some(r) => if in_label_band(r) {
                prev.push((rs[k - 1].0@, r))
            } else {
                prev
            },
            None => prev,
        }
    }
}

impl Smc {
    /// The readings of labelled sensors (label, value), keeping those that were
    /// read and lie strictly between 0 and 150 °C.
    pub fn get_all_temperatures(readings: &[(String, Option<Reading>)]) -> (r: Vec<(String, Reading)>)
        ensures
            r@.map_values(|p: (String, Reading)| (p.0@, p.1)) == labelled_in_band(readings@, readings@.len() as int),
    {
        let mut out: Vec<(String, Reading)> = Vec::new();
        let mut i: usize = 0;
        while i < readings.len()
            invariant
                i <= readings@.len(),
                out@.map_values(|p: (String, Reading)| (p.0@, p.1)) == labelled_in_band(readings@, i as int),
            decreases readings@.len() - i,
        {
            let (label, value) = &readings[i];
            if let Some(r) = value {
                let ok = r.mantissa >= -MANTISSA_LIMIT && r.mantissa <= MANTISSA_LIMIT && r.exponent >= -149
                    && r.exponent <= 104 && reading_exceeds(*r, 0) && reading_below(*r, 150);
                if ok {
                    out.push((label.clone(), *r));
                    proof {
                        assert(out@.map_values(|p: (String, Reading)| (p.0@, p.1)) =~= labelled_in_band(
                            readings@,
                            i as int,
                        ).push((label@, *r)));
                    }
                }
            }
            i += 1;
        }
        out
    }
}

/// Temperature keys to try when the key list cannot be read.
pub open spec fn fallback_keys_spec() -> Seq<Seq<char>> {
    seq![
        "Te04"@,
        "Te05"@,
        "Te06"@,
        "Te0K"@,
        "Te0L"@,
        "Te0M"@,
        "Te0P"@,
        "Te0Q"@,
        "Te0S"@,
        "Te0T"@,
        "Tp04"@,
        "Tp05"@,
        "Tp06"@,
        "Tp0C"@,
        "Tp0D"@,
        "Tp0E"@,
        "Tp0K"@,
        "Tp0L"@,
        "Tp0M"@,
        "Tp0R"@,
        "Tg03"@,
        "Tg04"@,
        "Tg05"@,
        "Tg08"@,
        "Tg0L"@,
        "Tg0M"@,
    ]
}

/// Temperature keys to try when the key list cannot be read: known CPU
/// efficiency (`Te`), performance (`Tp`) and GPU (`Tg`) sensors.
pub fn fallback_temperature_keys() -> (r: Vec<String>)
    ensures
        r@.map_values(|s: String| s@) == fallback_keys_spec(),
{
    let mut v: Vec<String> = Vec::new();
    v.push("Te04".to_string());
    v.push("Te05".to_string());
    v.push("Te06".to_string());
    v.push("Te0K".to_string());
    v.push("Te0L".to_string());
    v.push("Te0M".to_string());
    v.push("Te0P".to_string());
    v.push("Te0Q".to_string());
    v.push("Te0S".to_string());
    v.push("Te0T".to_string());
    v.push("Tp04".to_string());
    v.push("Tp05".to_string());
    v.push("Tp06".to_string());
    v.push("Tp0C".to_string());
    v.push("Tp0D".to_string());
    v.push("Tp0E".to_string());
    v.push("Tp0K".to_string());
    v.push("Tp0L".to_string());
    v.push("Tp0M".to_string());
    v.push("Tp0R".to_string());
    v.push("Tg03".to_string());
    v.push("Tg04".to_string());
    v.push("Tg05".to_string());
    v.push("Tg08".to_string());
    v.push("Tg0L".to_string());
    v.push("Tg0M".to_string());
    assert(v@.map_values(|s: String| s@) =~= fallback_keys_spec());
    v
}

/// Sensors listed by label, with the key each is read from.
pub open spec fn labelled_sensors_spec() -> Seq<(Seq<char>, Seq<char>)> {
    seq![
        ("TC0P"@, "CPU Proximity"@),
        ("Tp01"@, "CPU P-Core 1"@),
        ("Tp05"@, "CPU P-Core 2"@),
        ("Tp09"@, "CPU P-Core 3"@),
        ("Tp0D"@, "CPU P-Core 4"@),
        ("Te05"@, "CPU E-Core 1"@),
        ("Te0L"@, "CPU E-Core 2"@),
        ("TG0P"@, "GPU Proximity"@),
        ("Tg05"@, "GPU Die"@),
        ("Tm02"@, "Memory Bank 1"@),
        ("Tm08"@, "Memory Bank 2"@),
        ("TB1T"@, "Battery 1"@),
        ("TB2T"@, "Battery 2"@),
        ("TW0P"@, "Wireless Module"@),
    ]
}

/// The labelled sensors: (key, label) pairs.
pub fn labelled_sensors() -> (r: Vec<(String, String)>)
    ensures
        r@.map_values(|p: (String, String)| (p.0@, p.1@)) == labelled_sensors_spec(),
{
    let mut v: Vec<(String, String)> = Vec::new();
    v.push(("TC0P".to_string(), "CPU Proximity".to_string()));
    v.push(("Tp01".to_string(), "CPU P-Core 1".to_string()));
    v.push(("Tp05".to_string(), "CPU P-Core 2".to_string()));
    v.push(("Tp09".to_string(), "CPU P-Core 3".to_string()));
    v.push(("Tp0D".to_string(), "CPU P-Core 4".to_string()));
    v.push(("Te05".to_string(), "CPU E-Core 1".to_string()));
    v.push(("Te0L".to_string(), "CPU E-Core 2".to_string()));
    v.push(("TG0P".to_string(), "GPU Proximity".to_string()));
    v.push(("Tg05".to_string(), "GPU Die".to_string()));
    v.push(("Tm02".to_string(), "Memory Bank 1".to_string()));
    v.push(("Tm08".to_string(), "Memory Bank 2".to_string()));
    v.push(("TB1T".to_string(), "Battery 1".to_string()));
    v.push(("TB2T".to_string(), "Battery 2".to_string()));
    v.push(("TW0P".to_string(), "Wireless Module".to_string()));
    assert(v@.map_values(|p: (String, String)| (p.0@, p.1@)) =~= labelled_sensors_spec());
    v
}

/// The ASCII digit of `d`.
pub open spec fn digit(d: int) -> char {
    (48 + d) as u8 as char
}

fn digit_text(d: u8) -> (r: String)
    requires
        d < 10,
    ensures
        r@ == seq![digit(d as int)],
{
    let b: Vec<u8> = vec![48 + d];
    let s = utf8_lossy(b.as_slice());
    proof {
        assert(all_ascii(b@));
        assert(s@ =~= seq![digit(d as int)]);
    }
    s
}

/// `prefix` followed by `i` in two decimal digits (`VC07`, `IG03`).
pub fn indexed_key(prefix: &str, i: u8) -> (r: String)
    requires
        i < 100,
    ensures
        r@ == prefix@ + seq![digit(i as int / 10), digit(i as int % 10)],
{
    let mut s = prefix.to_string();
    let tens = digit_text(i / 10);
    let ones = digit_text(i % 10);
    s.append(tens.as_str());
    s.append(ones.as_str());
    proof {
        assert(s@ =~= prefix@ + seq![digit(i as int / 10), digit(i as int % 10)]);
    }
    s
}

/// The key of fan `i`'s quantity `suffix` (`F0Ac`, `F1Mx`).
pub fn fan_key(i: u8, suffix: &str) -> (r: String)
    requires
        i < 10,
    ensures
        r@ == seq!['F', digit(i as int)] + suffix@,
{
    let mut s = "F".to_string();
    let d = digit_text(i);
    s.append(d.as_str());
    s.append(suffix);
    proof {
        reveal_strlit("F");
        assert(s@ =~= seq!['F', digit(i as int)] + suffix@);
    }
    s
}

/// Speeds of one fan, each absent where its key could not be read.
#[derive(Clone, Copy, Debug, PartialEq, Eq, Structural)]
pub struct FanInfo {
    pub id: u8,
    pub actual_rpm: Option<Reading>,
    pub minimum_rpm: Option<Reading>,
    pub maximum_rpm: Option<Reading>,
    pub target_rpm: Option<Reading>,
}

/// The readings of one candidate fan: actual, minimum, maximum and target speed.
#[derive(Clone, Copy, Debug, PartialEq, Eq, Structural)]
pub struct FanReadings {
    pub actual: Option<Reading>,
    pub minimum: Option<Reading>,
    pub maximum: Option<Reading>,
    pub target: Option<Reading>,
}

/// The fans among the first `k` candidates: those whose actual speed was read,
/// numbered by their position.
pub open spec fn fans_spec(fs: Seq<FanReadings>, k: int) -> Seq<FanInfo>
    decreases k,
{
    if k <= 0 {
        Seq::empty()
    } else {
        let prev = fans_spec(fs, k - 1);
        let f = fs[k - 1];
        if f.actual is Some {
            prev.push(
                FanInfo {
                    id: (k - 1) as u8,
                    actual_rpm: f.actual,
                    minimum_rpm: f.minimum,
                    maximum_rpm: f.maximum,
                    target_rpm: f.target,
                },
            )
        } else {
            prev
        }
    }
}

impl Smc {
    /// The fans present among candidates `0, 1, ...`: a fan exists when its
    /// actual speed could be read.
    pub fn get_fan_metrics(candidates: &[FanReadings]) -> (r: Vec<FanInfo>)
        requires
            candidates@.len() <= 256,
        ensures
            r@ == fans_spec(candidates@, candidates@.len() as int),
    {
        let mut out: Vec<FanInfo> = Vec::new();
        let mut i: usize = 0;
        while i < candidates.len()
            invariant
                i <= candidates@.len() <= 256,
                out@ == fans_spec(candidates@, i as int),
            decreases candidates@.len() - i,
        {
            let f = candidates[i];
            if f.actual.is_some() {
                out.push(
                    FanInfo {
                        id: i as u8,
                        actual_rpm: f.actual,
                        minimum_rpm: f.minimum,
                        maximum_rpm: f.maximum,
                        target_rpm: f.target,
                    },
                );
            }
            i += 1;
        }
        out
    }

    /// The keys that could be read, with their values, in order: the voltage
    /// and current rails.
    pub fn readable_values(readings: &[KeyReading]) -> (r: Vec<(String, Reading)>)
        ensures
            r@.map_values(|p: (String, Reading)| (p.0@, p.1)) == readable_spec(readings@, readings@.len() as int),
    {
        let mut out: Vec<(String, Reading)> = Vec::new();
        let mut i: usize = 0;
        while i < readings.len()
            invariant
                i <= readings@.len(),
                out@.map_values(|p: (String, Reading)| (p.0@, p.1)) == readable_spec(readings@, i as int),
            decreases readings@.len() - i,
        {
            let kr = &readings[i];
            if let Some(r) = kr.value {
                out.push((kr.key.clone(), r));
                proof {
                    assert(out@.map_values(|p: (String, Reading)| (p.0@, p.1)) =~= readable_spec(
                        readings@,
                        i as int,
                    ).push((kr.key@, r)));
                }
            }
            i += 1;
        }
        out
    }
}

/// The readings among the first `k` that have a value.
pub open spec fn readable_spec(rs: Seq<KeyReading>, k: int) -> Seq<(Seq<char>, Reading)>
    decreases k,
{
    if k <= 0 {
        Seq::empty()
    } else {
        let prev = readable_spec(rs, k - 1);
        match rs[k - 1].value {
            Some(r) => prev.push((rs[k - 1].key@, r)),
            None => prev,
        }
    }
}

/// The printable keys among the first `k` index replies, in index order.
pub open spec fn printable_keys(replies: Seq<Option<u32>>, k: int) -> Seq<Seq<char>>
    decreases k,
{
    if k <= 0 {
        Seq::empty()
    } else {
        let prev = printable_keys(replies, k - 1);
        match replies[k - 1] {
            Some(code) => match key_from_code_spec(code) {
                Some(key) => prev.push(key),
                None => prev,
            },
            None => prev,
        }
    }
}

} // verus!
