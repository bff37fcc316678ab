//! # Data Representation
//!
//! Instructions are kept in their binary form. A program is a sequence of them.
//!
//! Data push instructions:
//!
//! * `<len @ 0..120u8> [_;len]`: byte arrays of up to 120 bytes have their size in the
//!   first byte, followed by that many bytes
//! * `<121u8> <len u8> [_; len]`: byte arrays from 121 to 255 bytes have their size in the
//!   second byte
//! * `<122u8> <len u16> [_; len]`: byte arrays from 256 to 65535 bytes have their size in the
//!   second and third bytes
//! * `<123u8> <len u32> [_; len]`: byte arrays from 65536 bytes have their size in the
//!   second to fifth bytes
//!
//! Sizes of more than one byte have their most significant byte first.
//!
//! Word:
//!
//! * `<len @ 129u8..255u8> [_; len ^ 128u8]`: the following `len` bytes, without the highest
//!   bit, are a word. It is not empty.
//!
//! `128u8` is a prefix to be followed by an internal word. The rest of the tags (`124u8` to
//! `127u8`) are reserved.

use crate::error::ParseError;
use vstd::prelude::*;
use vstd::slice::slice_subrange;

verus! {

/// A program, in its binary form.
pub type Program = Vec<u8>;

/// The largest size that a size field has a length for. Sizes below it can be read back from
/// their fields.
pub const MAX_SIZE: u64 = 4294967296;

/// The length of the field that holds a size.
pub open spec fn size_len(size: nat) -> nat {
    if size <= 120 {
        1
    } else if size <= 255 {
        2
    } else if size <= 65535 {
        3
    } else {
        5
    }
}

/// The byte of `n` that counts multiples of `unit`.
pub open spec fn digit(n: nat, unit: nat) -> u8 {
    (n / unit % 256) as u8
}

/// The field that holds a size.
pub open spec fn encode_size(size: nat) -> Seq<u8> {
    if size <= 120 {
        seq![digit(size, 1)]
    } else if size <= 255 {
        seq![121, digit(size, 1)]
    } else if size <= 65535 {
        seq![122, digit(size, 256), digit(size, 1)]
    } else {
        seq![
            123,
            digit(size, 16777216),
            digit(size, 65536),
            digit(size, 256),
            digit(size, 1),
        ]
    }
}

/// The instruction that pushes a value.
pub open spec fn encode(value: Seq<u8>) -> Seq<u8> {
    encode_size(value.len()) + value
}

/// The instruction that executes a word of these letters.
pub open spec fn encode_word(letters: Seq<u8>) -> Seq<u8> {
    seq![(128 + letters.len()) as u8] + letters
}

/// The number of bytes after a tag that hold the size of the data, if the tag is one of
/// data.
pub open spec fn size_width(tag: u8) -> Option<nat> {
    if tag <= 120 {
        Some(0)
    } else if tag == 121 {
        Some(1)
    } else if tag == 122 {
        Some(2)
    } else if tag == 123 {
        Some(4)
    } else {
        None
    }
}

/// The number that bytes stand for, most significant byte first.
pub open spec fn be_value(bytes: Seq<u8>) -> nat
    decreases bytes.len(),
{
    if bytes.len() == 0 {
        0
    } else {
        be_value(bytes.drop_last()) * 256 + bytes.last() as nat
    }
}

/// The size that stands at the front of some bytes. A field is only good for the sizes
/// that it is meant for.
pub open spec fn decode_size(bytes: Seq<u8>) -> Result<nat, ParseError> {
    if bytes.len() == 0 {
        Err(ParseError::Incomplete)
    } else {
        match size_width(bytes[0]) {
            None => Err(ParseError::UnknownErr),
            Some(width) => if bytes.len() < 1 + width {
                Err(ParseError::Incomplete)
            } else {
                let size = if width == 0 {
                    bytes[0] as nat
                } else {
                    be_value(bytes.subrange(1, 1 + width as int))
                };
                if size_len(size) == 1 + width {
                    Ok(size)
                } else {
                    Err(ParseError::UnknownErr)
                }
            },
        }
    }
}

/// The length of the data push instruction at the front of some bytes.
pub open spec fn decode_data(bytes: Seq<u8>) -> Result<nat, ParseError> {
    match decode_size(bytes) {
        Err(error) => Err(error),
        Ok(size) => if bytes.len() < size_len(size) + size {
            Err(ParseError::Incomplete)
        } else {
            Ok(size_len(size) + size)
        },
    }
}

/// The length of the word at the front of some bytes.
pub open spec fn decode_word(bytes: Seq<u8>) -> Result<nat, ParseError> {
    if bytes.len() == 0 {
        Err(ParseError::Incomplete)
    } else if bytes[0] <= 128 {
        Err(ParseError::UnknownErr)
    } else if bytes.len() < 1 + (bytes[0] - 128) {
        Err(ParseError::Incomplete)
    } else {
        Ok((1 + (bytes[0] - 128)) as nat)
    }
}

/// The length of the word, internal or not, at the front of some bytes.
pub open spec fn decode_any_word(bytes: Seq<u8>) -> Result<nat, ParseError> {
    if bytes.len() > 0 && bytes[0] == 128 {
        match decode_word(bytes.skip(1)) {
            Ok(len) => Ok(len + 1),
            Err(error) => Err(error),
        }
    } else {
        decode_word(bytes)
    }
}

/// Whether bytes start with a size field.
pub open spec fn has_size(bytes: Seq<u8>) -> bool {
    decode_size(bytes) is Ok
}

/// What follows the size field.
pub open spec fn payload_of(bytes: Seq<u8>) -> Seq<u8>
    recommends
        has_size(bytes),
{
    bytes.skip(size_len(decode_size(bytes)->Ok_0) as int)
}

/// Whether bytes are exactly one data push instruction.
pub open spec fn is_item(bytes: Seq<u8>) -> bool {
    decode_data(bytes) == Ok::<nat, ParseError>(bytes.len())
}

/// The length of the field that holds a size.
pub fn offset_by_size(size: usize) -> (offset: usize)
    requires
        size as u64 <= MAX_SIZE,
    ensures
        offset == size_len(size as nat),
{
    size_field_len(size as u64) as usize
}

/// The length of the field that holds a size.
pub(crate) fn size_field_len(size: u64) -> (len: u64)
    ensures
        len == size_len(size as nat),
{
    if size <= 120 {
        1
    } else if size <= 255 {
        2
    } else if size <= 65535 {
        3
    } else {
        5
    }
}

/// Writes the size field to the front of a slice, and returns its length.
pub fn write_size_into_slice(size: usize, slice: &mut [u8]) -> (offset: usize)
    requires
        (size as u64) < MAX_SIZE,
        old(slice)@.len() >= size_len(size as nat),
    ensures
        offset == size_len(size as nat),
        final(slice)@ == encode_size(size as nat) + old(slice)@.skip(offset as int),
{
    let n: u64 = size as u64;
    let low: u8 = (n % 256) as u8;
    if size <= 120 {
        slice[0] = low;
        assert(slice@ =~= encode_size(size as nat) + old(slice)@.skip(1));
        1
    } else if size <= 255 {
        slice[0] = 121;
        slice[1] = low;
        assert(slice@ =~= encode_size(size as nat) + old(slice)@.skip(2));
        2
    } else if size <= 65535 {
        slice[0] = 122;
        slice[1] = (n / 256 % 256) as u8;
        slice[2] = low;
        assert(slice@ =~= encode_size(size as nat) + old(slice)@.skip(3));
        3
    } else {
        slice[0] = 123;
        slice[1] = (n / 16777216 % 256) as u8;
        slice[2] = (n / 65536 % 256) as u8;
        slice[3] = (n / 256 % 256) as u8;
        slice[4] = low;
        assert(slice@ =~= encode_size(size as nat) + old(slice)@.skip(5));
        5
    }
}

/// The size that stands at the front of some bytes.
pub fn data_size(bytes: &[u8]) -> (size: Result<usize, ParseError>)
    ensures
        match decode_size(bytes@) {
            Ok(n) => size matches Ok(m) && m == n,
            Err(e) => size == Err::<usize, ParseError>(e),
        },
        size matches Ok(m) ==> m as u64 <= MAX_SIZE && size_len(m as nat) <= bytes@.len(),
{
    if bytes.len() == 0 {
        return Err(ParseError::Incomplete);
    }
    let tag: u8 = bytes[0];
    if tag <= 120 {
        return Ok(tag as usize);
    }
    if tag > 123 {
        return Err(ParseError::UnknownErr);
    }
    let width: usize = if tag == 121 {
        1
    } else if tag == 122 {
        2
    } else {
        4
    };
    if bytes.len() < 1 + width {
        return Err(ParseError::Incomplete);
    }
    let size: usize = be_size(slice_subrange(bytes, 1, 1 + width));
    if offset_by_size(size) == 1 + width {
        Ok(size)
    } else {
        Err(ParseError::UnknownErr)
    }
}

/// The number that up to four bytes stand for, most significant byte first.
fn be_size(bytes: &[u8]) -> (value: usize)
    requires
        bytes@.len() <= 4,
    ensures
        value == be_value(bytes@),
        value <= u32::MAX,
{
    let mut value: usize = 0;
    let mut i: usize = 0;
    while i < bytes.len()
        invariant
            i <= bytes.len() <= 4,
            value == be_value(bytes@.take(i as int)),
            i == 0 ==> value == 0,
            i == 1 ==> value <= 0xff,
            i == 2 ==> value <= 0xffff,
            i == 3 ==> value <= 0xffffff,
            i == 4 ==> value <= 0xffffffff,
        decreases bytes.len() - i,
    {
        assert(bytes@.take(i + 1).drop_last() =~= bytes@.take(i as int));
        value = value * 256 + bytes[i] as usize;
        i += 1;
    }
    assert(bytes@.take(i as int) =~= bytes@);
    value
}

/// The data push instruction at the front of some bytes, with its size field.
pub fn data<'a>(bytes: &'a [u8]) -> (item: Result<&'a [u8], ParseError>)
    ensures
        match decode_data(bytes@) {
            Ok(len) => item matches Ok(found) && found@ == bytes@.take(len as int),
            Err(e) => item == Err::<&'a [u8], ParseError>(e),
        },
{
    match data_size(bytes) {
        Err(error) => Err(error),
        Ok(size) => {
            let offset: usize = offset_by_size(size);
            if bytes.len() - offset < size {
                Err(ParseError::Incomplete)
            } else {
                Ok(slice_subrange(bytes, 0, offset + size))
            }
        },
    }
}

/// The word at the front of some bytes, with its length byte.
pub fn word<'a>(bytes: &'a [u8]) -> (found: Result<&'a [u8], ParseError>)
    ensures
        match decode_word(bytes@) {
            Ok(len) => found matches Ok(word) && word@ == bytes@.take(len as int),
            Err(e) => found == Err::<&'a [u8], ParseError>(e),
        },
{
    if bytes.len() == 0 {
        return Err(ParseError::Incomplete);
    }
    let tag: u8 = bytes[0];
    if tag <= 128 {
        return Err(ParseError::UnknownErr);
    }
    let len: usize = 1 + (tag - 128) as usize;
    if bytes.len() < len {
        return Err(ParseError::Incomplete);
    }
    Ok(slice_subrange(bytes, 0, len))
}

/// The word, internal or not, at the front of some bytes, with what stands before its
/// letters.
pub fn word_or_internal_word<'a>(bytes: &'a [u8]) -> (found: Result<&'a [u8], ParseError>)
    ensures
        match decode_any_word(bytes@) {
            Ok(len) => found matches Ok(word) && word@ == bytes@.take(len as int),
            Err(e) => found == Err::<&'a [u8], ParseError>(e),
        },
{
    if bytes.len() > 0 && bytes[0] == 128 {
        let rest: &[u8] = slice_subrange(bytes, 1, bytes.len());
        assert(rest@ =~= bytes@.skip(1));
        match word(rest) {
            Ok(word) => Ok(slice_subrange(bytes, 0, word.len() + 1)),
            Err(error) => Err(error),
        }
    } else {
        word(bytes)
    }
}

/// What follows the size field.
pub fn payload<'a>(bytes: &'a [u8]) -> (value: &'a [u8])
    requires
        has_size(bytes@),
    ensures
        value@ == payload_of(bytes@),
{
    match data_size(bytes) {
        Ok(size) => {
            let value: &[u8] = slice_subrange(bytes, offset_by_size(size), bytes.len());
            assert(value@ =~= payload_of(bytes@));
            value
        },
        Err(_) => bytes,
    }
}

} // verus!
