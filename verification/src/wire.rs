//! Reading and writing the values that the index file and the sprite files
//! are made of: bytes, little-endian 32-bit integers, and strings that are
//! stored as a length and that many bytes of UTF-8.

use crate::error::{AppearanceError, ErrorView};
use crate::outside::{le_read_i32, le_read_u32, le_write_i32, le_write_u32, string_from_utf8};
use vstd::prelude::*;
use vstd::slice::{slice_subrange, slice_to_vec};
use vstd::string::StringExecFns;
use vstd::utf8::{decode_utf8, encode_utf8, valid_utf8};

verus! {

/// The four bytes that stand for `value`, lowest byte first.
#[verifier::opaque]
pub open spec fn u32_le_bytes(value: u32) -> Seq<u8> {
    seq![
        (value % 256) as u8,
        ((value / 256) % 256) as u8,
        ((value / 65536) % 256) as u8,
        (value / 16777216) as u8,
    ]
}

/// The number that four bytes stand for, lowest byte first.
#[verifier::opaque]
pub open spec fn u32_from_le(bytes: Seq<u8>) -> u32
    recommends
        bytes.len() == 4,
{
    (bytes[0] + 256 * bytes[1] + 65536 * bytes[2] + 16777216 * bytes[3]) as u32
}

/// The unsigned number with the same 32 bits as `value`.
pub open spec fn i32_bits(value: i32) -> u32 {
    if value < 0 {
        (value + 0x1_0000_0000) as u32
    } else {
        value as u32
    }
}

/// The signed number with the same 32 bits as `bits`.
pub open spec fn i32_of_bits(bits: u32) -> i32 {
    if bits >= 0x8000_0000 {
        (bits - 0x1_0000_0000) as i32
    } else {
        bits as i32
    }
}

/// The four bytes that stand for a signed `value`, lowest byte first.
pub open spec fn i32_le_bytes(value: i32) -> Seq<u8> {
    u32_le_bytes(i32_bits(value))
}

/// The signed number that four bytes stand for, lowest byte first.
pub open spec fn i32_from_le(bytes: Seq<u8>) -> i32
    recommends
        bytes.len() == 4,
{
    i32_of_bits(u32_from_le(bytes))
}

/// Four bytes are written for every number, and reading them gives the number
/// back.
pub proof fn lemma_u32_le_round_trip(value: u32)
    ensures
        u32_le_bytes(value).len() == 4,
        u32_from_le(u32_le_bytes(value)) == value,
{
    reveal(u32_le_bytes);
    reveal(u32_from_le);
}

/// A signed number is read back as it was written.
pub proof fn lemma_i32_le_round_trip(value: i32)
    ensures
        i32_le_bytes(value).len() == 4,
        i32_from_le(i32_le_bytes(value)) == value,
{
    lemma_u32_le_round_trip(i32_bits(value));
}

/// The byte at `pos`, and the position behind it.
pub open spec fn parse_u8(data: Seq<u8>, pos: int) -> Result<(u8, int), ErrorView> {
    if 0 <= pos < data.len() {
        Ok((data[pos], pos + 1))
    } else {
        Err(ErrorView::Truncated)
    }
}

/// The number in the four bytes at `pos`, and the position behind them.
pub open spec fn parse_u32(data: Seq<u8>, pos: int) -> Result<(u32, int), ErrorView> {
    if 0 <= pos && pos + 4 <= data.len() {
        Ok((u32_from_le(data.subrange(pos, pos + 4)), pos + 4))
    } else {
        Err(ErrorView::Truncated)
    }
}

/// The signed number in the four bytes at `pos`, and the position behind them.
pub open spec fn parse_i32(data: Seq<u8>, pos: int) -> Result<(i32, int), ErrorView> {
    if 0 <= pos && pos + 4 <= data.len() {
        Ok((i32_from_le(data.subrange(pos, pos + 4)), pos + 4))
    } else {
        Err(ErrorView::Truncated)
    }
}

/// The `count` bytes at `pos`, and the position behind them.
pub open spec fn parse_bytes(
    data: Seq<u8>,
    pos: int,
    count: int,
) -> Result<(Seq<u8>, int), ErrorView> {
    if 0 <= pos && 0 <= count && pos + count <= data.len() {
        Ok((data.subrange(pos, pos + count), pos + count))
    } else {
        Err(ErrorView::Truncated)
    }
}

/// The string at `pos`, and the position behind it: a length, then that many
/// bytes of UTF-8.
pub open spec fn parse_string(data: Seq<u8>, pos: int) -> Result<(Seq<char>, int), ErrorView> {
    match parse_u32(data, pos) {
        Err(e) => Err(e),
        Ok((length, start)) => match parse_bytes(data, start, length as int) {
            Err(e) => Err(e),
            Ok((bytes, end)) => if valid_utf8(bytes) {
                Ok((decode_utf8(bytes), end))
            } else {
                Err(ErrorView::InvalidUtf8)
            },
        },
    }
}

/// The bytes that stand for a string: the length of its UTF-8 encoding, then
/// the encoding.
pub open spec fn string_bytes(text: Seq<char>) -> Seq<u8> {
    u32_le_bytes(encode_utf8(text).len() as u32) + encode_utf8(text)
}

/// Whether `part` stands in `data` at `pos`.
#[verifier::opaque]
pub open spec fn holds_at(data: Seq<u8>, pos: int, part: Seq<u8>) -> bool {
    &&& 0 <= pos
    &&& pos + part.len() <= data.len()
    &&& data.subrange(pos, pos + part.len()) == part
}

/// Two parts stand in `data` one behind the other just when their
/// concatenation stands there.
pub proof fn lemma_holds_at_concat(data: Seq<u8>, pos: int, first: Seq<u8>, second: Seq<u8>)
    ensures
        holds_at(data, pos, first + second) <==> holds_at(data, pos, first) && holds_at(
            data,
            pos + first.len(),
            second,
        ),
{
    reveal(holds_at);
    let whole = first + second;
    if holds_at(data, pos, whole) {
        assert(data.subrange(pos, pos + first.len()) =~= whole.subrange(0, first.len() as int));
        assert(whole.subrange(0, first.len() as int) =~= first);
        assert(data.subrange(pos + first.len(), pos + first.len() + second.len())
            =~= whole.subrange(first.len() as int, whole.len() as int));
        assert(whole.subrange(first.len() as int, whole.len() as int) =~= second);
    }
    if holds_at(data, pos, first) && holds_at(data, pos + first.len(), second) {
        assert(data.subrange(pos, pos + whole.len()) =~= data.subrange(pos, pos + first.len())
            + data.subrange(pos + first.len(), pos + first.len() + second.len()));
    }
}

/// The whole of `data` stands at its start.
pub proof fn lemma_holds_at_start(data: Seq<u8>)
    ensures
        holds_at(data, 0, data),
{
    reveal(holds_at);
    assert(data.subrange(0, data.len() as int) =~= data);
}

/// A number that stands at `pos` is read there.
pub proof fn lemma_parse_written_u32(data: Seq<u8>, pos: int, value: u32)
    requires
        holds_at(data, pos, u32_le_bytes(value)),
    ensures
        u32_le_bytes(value).len() == 4,
        parse_u32(data, pos) == Ok::<(u32, int), ErrorView>((value, pos + 4)),
{
    reveal(holds_at);
    lemma_u32_le_round_trip(value);
}

/// A signed number that stands at `pos` is read there.
pub proof fn lemma_parse_written_i32(data: Seq<u8>, pos: int, value: i32)
    requires
        holds_at(data, pos, i32_le_bytes(value)),
    ensures
        i32_le_bytes(value).len() == 4,
        parse_i32(data, pos) == Ok::<(i32, int), ErrorView>((value, pos + 4)),
{
    reveal(holds_at);
    lemma_i32_le_round_trip(value);
}

/// A byte that stands at `pos` is read there.
pub proof fn lemma_parse_written_u8(data: Seq<u8>, pos: int, value: u8)
    requires
        holds_at(data, pos, seq![value]),
    ensures
        parse_u8(data, pos) == Ok::<(u8, int), ErrorView>((value, pos + 1)),
{
    reveal(holds_at);
    assert(data.subrange(pos, pos + 1)[0] == value);
}

/// A string that stands at `pos` is read there, provided the length of its
/// encoding fits the four bytes that hold it.
pub proof fn lemma_parse_written_string(data: Seq<u8>, pos: int, text: Seq<char>)
    requires
        encode_utf8(text).len() <= u32::MAX,
        holds_at(data, pos, string_bytes(text)),
    ensures
        string_bytes(text).len() == 4 + encode_utf8(text).len(),
        parse_string(data, pos) == Ok::<(Seq<char>, int), ErrorView>(
            (text, pos + 4 + encode_utf8(text).len()),
        ),
{
    let encoded = encode_utf8(text);
    let length = encoded.len() as u32;
    lemma_u32_le_round_trip(length);
    lemma_holds_at_concat(data, pos, u32_le_bytes(length), encoded);
    lemma_parse_written_u32(data, pos, length);
    reveal(holds_at);
    vstd::utf8::encode_utf8_valid_utf8(text);
    vstd::utf8::encode_utf8_decode_utf8(text);
}

/// A place in a buffer of bytes, from which values are read one after
/// another.
pub struct ByteReader<'a> {
    data: &'a [u8],
    pos: usize,
}

impl<'a> ByteReader<'a> {
    #[verifier::type_invariant]
    spec fn within_data(self) -> bool {
        self.pos <= self.data@.len()
    }

    /// The whole buffer.
    pub closed spec fn bytes(self) -> Seq<u8> {
        self.data@
    }

    /// The position of the next byte to read.
    pub closed spec fn position(self) -> int {
        self.pos as int
    }

    /// Whether a read that the format describes by `expected` has happened
    /// between `before` and `self`, with the outcome `outcome`: the value was
    /// returned and the position moved behind it, or the error was returned
    /// and the position stayed.
    pub open spec fn has_read<T>(
        self,
        before: Self,
        outcome: Result<T, AppearanceError>,
        expected: Result<(T, int), ErrorView>,
    ) -> bool {
        &&& self.bytes() == before.bytes()
        &&& match expected {
            Ok((value, end)) => {
                &&& outcome == Ok::<T, AppearanceError>(value)
                &&& self.position() == end
            },
            Err(e) => {
                &&& outcome matches Err(error)
                &&& error@ == e
                &&& self.position() == before.position()
            },
        }
    }

    /// Whether a read that the format describes by `expected` has happened
    /// between `before` and `self`, with the outcome `outcome`: what was
    /// returned says the value, and the position moved behind it; or the
    /// error was returned.
    pub open spec fn has_read_as<T: View>(
        self,
        before: Self,
        outcome: Result<T, AppearanceError>,
        expected: Result<(T::V, int), ErrorView>,
    ) -> bool {
        &&& self.bytes() == before.bytes()
        &&& match expected {
            Ok((value, end)) => {
                &&& outcome matches Ok(read)
                &&& read@ == value
                &&& self.position() == end
            },
            Err(e) => outcome matches Err(error) && error@ == e,
        }
    }

    /// A reader at the start of `data`.
    pub fn new(data: &'a [u8]) -> (reader: Self)
        ensures
            reader.bytes() == data@,
            reader.position() == 0,
    {
        ByteReader { data, pos: 0 }
    }

    /// The number of bytes that are left to read.
    pub fn remaining(&self) -> (count: usize)
        ensures
            count == self.bytes().len() - self.position(),
            0 <= self.position() <= self.bytes().len(),
    {
        proof {
            use_type_invariant(self);
        }
        self.data.len() - self.pos
    }

    /// Reads one byte.
    pub fn read_u8(&mut self) -> (outcome: Result<u8, AppearanceError>)
        ensures
            final(self).has_read(
                *old(self),
                outcome,
                parse_u8(old(self).bytes(), old(self).position()),
            ),
    {
        proof {
            use_type_invariant(&*self);
        }
        if self.pos < self.data.len() {
            let value: u8 = self.data[self.pos];
            self.pos = self.pos + 1;
            Ok(value)
        } else {
            Err(AppearanceError::Truncated)
        }
    }

    /// Reads a number of four bytes, lowest byte first.
    pub fn read_u32(&mut self) -> (outcome: Result<u32, AppearanceError>)
        ensures
            final(self).has_read(
                *old(self),
                outcome,
                parse_u32(old(self).bytes(), old(self).position()),
            ),
    {
        proof {
            use_type_invariant(&*self);
        }
        if self.data.len() - self.pos >= 4 {
            let field = slice_subrange(self.data, self.pos, self.pos + 4);
            assert(field@.subrange(0, 4) =~= field@);
            let value: u32 = le_read_u32(field);
            self.pos = self.pos + 4;
            Ok(value)
        } else {
            Err(AppearanceError::Truncated)
        }
    }

    /// Reads a signed number of four bytes, lowest byte first.
    pub fn read_i32(&mut self) -> (outcome: Result<i32, AppearanceError>)
        ensures
            final(self).has_read(
                *old(self),
                outcome,
                parse_i32(old(self).bytes(), old(self).position()),
            ),
    {
        proof {
            use_type_invariant(&*self);
        }
        if self.data.len() - self.pos >= 4 {
            let field = slice_subrange(self.data, self.pos, self.pos + 4);
            assert(field@.subrange(0, 4) =~= field@);
            let value: i32 = le_read_i32(field);
            self.pos = self.pos + 4;
            Ok(value)
        } else {
            Err(AppearanceError::Truncated)
        }
    }

    /// Reads `count` bytes.
    pub fn read_bytes(&mut self, count: usize) -> (outcome: Result<Vec<u8>, AppearanceError>)
        ensures
            final(self).bytes() == old(self).bytes(),
            match parse_bytes(old(self).bytes(), old(self).position(), count as int) {
                Ok((bytes, end)) => {
                    &&& outcome matches Ok(read)
                    &&& read@ == bytes
                    &&& final(self).position() == end
                },
                Err(e) => {
                    &&& outcome matches Err(error)
                    &&& error@ == e
                    &&& final(self).position() == old(self).position()
                },
            },
    {
        proof {
            use_type_invariant(&*self);
        }
        if self.data.len() - self.pos >= count {
            let field = slice_subrange(self.data, self.pos, self.pos + count);
            let read: Vec<u8> = slice_to_vec(field);
            self.pos = self.pos + count;
            Ok(read)
        } else {
            Err(AppearanceError::Truncated)
        }
    }
}

/// Reads a string: a length of four bytes, then that many bytes of UTF-8.
/// It fails with `Truncated` where the data ends before the string does, and
/// with `InvalidUtf8` where the bytes are not valid UTF-8; the position then
/// stays where it was.
pub fn read_string(reader: &mut ByteReader) -> (outcome: Result<String, AppearanceError>)
    ensures
        final(reader).bytes() == old(reader).bytes(),
        match parse_string(old(reader).bytes(), old(reader).position()) {
            Ok((text, end)) => {
                &&& outcome matches Ok(read)
                &&& read@ == text
                &&& final(reader).position() == end
            },
            Err(e) => {
                &&& outcome matches Err(error)
                &&& error@ == e
                &&& final(reader).position() == old(reader).position()
            },
        },
{
    proof {
        use_type_invariant(&*reader);
    }
    let start: usize = reader.pos;
    let length: u32 = match reader.read_u32() {
        Ok(length) => length,
        Err(e) => {
            return Err(e);
        },
    };
    let bytes: Vec<u8> = match reader.read_bytes(length as usize) {
        Ok(bytes) => bytes,
        Err(e) => {
            reader.pos = start;
            return Err(e);
        },
    };
    match string_from_utf8(bytes) {
        Some(text) => Ok(text),
        None => {
            reader.pos = start;
            Err(AppearanceError::InvalidUtf8)
        },
    }
}

/// A count of bytes as a `usize` can hold it: the largest `usize` stands for
/// every count above it.
pub open spec fn saturated(total: nat) -> usize {
    if total <= usize::MAX {
        total as usize
    } else {
        usize::MAX
    }
}

/// What is said of a text or a list that is longer than the four bytes of
/// its length can count.
pub open spec fn too_long() -> Seq<char> {
    "a text or a list is too long to be stored"@
}

/// The error for a text or a list that is too long to be stored.
pub fn too_long_error() -> (error: AppearanceError)
    ensures
        error@ == ErrorView::InvalidData(too_long()),
{
    invalid_data("a text or a list is too long to be stored")
}

/// An `InvalidData` error with the given message.
pub fn invalid_data(message: &str) -> (error: AppearanceError)
    ensures
        error@ == ErrorView::InvalidData(message@),
{
    AppearanceError::InvalidData(String::from_str(message))
}

/// Appends one byte.
pub fn write_u8(buffer: &mut Vec<u8>, value: u8)
    ensures
        final(buffer)@ == old(buffer)@ + seq![value],
{
    buffer.push(value);
    assert(buffer@ =~= old(buffer)@ + seq![value]);
}

/// Appends `bytes`.
pub fn write_bytes(buffer: &mut Vec<u8>, bytes: &[u8])
    ensures
        final(buffer)@ == old(buffer)@ + bytes@,
{
    buffer.extend_from_slice(bytes);
    assert(buffer@ =~= old(buffer)@ + bytes@);
}

/// Appends a number as four bytes, lowest byte first.
pub fn write_u32(buffer: &mut Vec<u8>, value: u32)
    ensures
        final(buffer)@ == old(buffer)@ + u32_le_bytes(value),
{
    let field: [u8; 4] = le_write_u32(value);
    write_bytes(buffer, field.as_slice());
}

/// Appends a signed number as four bytes, lowest byte first.
pub fn write_i32(buffer: &mut Vec<u8>, value: i32)
    ensures
        final(buffer)@ == old(buffer)@ + i32_le_bytes(value),
{
    let field: [u8; 4] = le_write_i32(value);
    write_bytes(buffer, field.as_slice());
}

/// Appends a string: the length of its UTF-8 encoding as four bytes, then the
/// encoding. A text whose encoding is longer than four bytes can count is
/// refused, and nothing is appended.
pub fn write_string(buffer: &mut Vec<u8>, text: &str) -> (outcome: Result<(), AppearanceError>)
    ensures
        match outcome {
            Ok(_) => {
                &&& encode_utf8(text@).len() <= u32::MAX
                &&& final(buffer)@ == old(buffer)@ + string_bytes(text@)
            },
            Err(error) => {
                &&& encode_utf8(text@).len() > u32::MAX
                &&& error@ == ErrorView::InvalidData(too_long())
                &&& final(buffer)@ == old(buffer)@
            },
        },
{
    let encoded: &[u8] = text.as_bytes();
    if encoded.len() > u32::MAX as usize {
        return Err(too_long_error());
    }
    write_u32(buffer, encoded.len() as u32);
    write_bytes(buffer, encoded);
    assert(buffer@ =~= old(buffer)@ + string_bytes(text@));
    Ok(())
}

} // verus!
