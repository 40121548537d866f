//! UUIDs: 16 bytes, written as binary data.

use crate::error::{ErrorKind, LqError};
use crate::slice_reader::SliceReader;
use crate::types::binary::{binary_at, binary_bytes, Binary};
use crate::vec_writer::VecWriter;
use vstd::prelude::*;
use vstd::string::*;

verus! {

/// 16 byte Universally Unique Identifier (UUID) according to RFC 4122. Does not specify which
/// variant is allowed. Does not validate: Any 16 byte binary is allowed.
#[derive(Debug, Clone, Copy)]
pub struct Uuid {
    bytes: [u8; 16],
}

impl View for Uuid {
    type V = Seq<u8>;

    closed spec fn view(&self) -> Seq<u8> {
        self.bytes@
    }
}

/// The UUID at `pos` and the position behind it: binary data of 16 bytes.
pub open spec fn uuid_at(data: Seq<u8>, pos: int) -> Option<(Seq<u8>, int)> {
    match binary_at(data, pos) {
        Some((body, e)) => if body.len() == 16 {
            Some((body, e))
        } else {
            None
        },
        None => None,
    }
}

/// The lower case hexadecimal digit of a number below 16.
pub open spec fn hex_digit(n: int) -> char {
    if n < 10 {
        (('0' as int) + n) as char
    } else {
        (('a' as int) + n - 10) as char
    }
}

/// The lower case hexadecimal digits of a byte, without a leading zero.
pub open spec fn hex_of_byte(b: u8) -> Seq<char> {
    if b < 16 {
        seq![hex_digit(b as int)]
    } else {
        seq![hex_digit(b as int / 16), hex_digit(b as int % 16)]
    }
}

/// The hexadecimal digits of bytes, one after the other, none padded.
pub open spec fn hex_of_bytes(bytes: Seq<u8>) -> Seq<char>
    decreases bytes.len(),
{
    if bytes.len() == 0 {
        Seq::empty()
    } else {
        hex_of_bytes(bytes.drop_last()) + hex_of_byte(bytes.last())
    }
}

/// `LowerHex` for `u8` through `format!("{:x}", ..)`: the lower case
/// hexadecimal digits of the byte, without prefix and without padding.
#[verifier::external_body]
pub(crate) fn lower_hex(byte: u8) -> (s: String)
    ensures
        s@ == hex_of_byte(byte),
{
    format!("{:x}", byte)
}

/// `uuid::Uuid::new_v4` and `Uuid::into_bytes`: 16 random bytes but for the
/// version, which is 4 in the upper half of byte 6, and the variant, which
/// is binary 10 in the two upper bits of byte 8.
#[verifier::external_body]
pub(crate) fn random_uuid_bytes() -> (bytes: [u8; 16])
    ensures
        bytes@[6] / 16 == 4,
        bytes@[8] / 64 == 2,
{
    uuid::Uuid::new_v4().into_bytes()
}

impl Uuid {
    /// The UUID of the given bytes.
    pub fn from_bytes(value: [u8; 16]) -> (u: Uuid)
        ensures
            u@ == value@,
    {
        Uuid { bytes: value }
    }

    /// The UUID of the given bytes; an error unless they are 16.
    pub fn try_from(value: &[u8]) -> (r: Result<Uuid, LqError>)
        ensures
            match r {
                Ok(u) => value@.len() == 16 && u@ == value@,
                Err(e) => value@.len() != 16 && e.kind == ErrorKind::Codec,
            },
    {
        if value.len() == 16 {
            let mut uuid_bytes: [u8; 16] = [0;16];
            let mut index: usize = 0;
            while index < 16
                invariant
                    index <= 16,
                    value@.len() == 16,
                    forall|i: int| 0 <= i < index ==> uuid_bytes@[i] == value@[i],
                decreases 16 - index,
            {
                uuid_bytes[index] = value[index];
                index += 1;
            }
            proof {
                assert(uuid_bytes@ =~= value@);
            }
            Ok(Uuid { bytes: uuid_bytes })
        } else {
            LqError::err_new(
                ErrorKind::Codec,
                "Given binary for uuid has invalid length (need 16 bytes)",
            )
        }
    }

    /// A new random UUID of version 4.
    pub fn new_v4() -> (u: Uuid)
        ensures
            u@.len() == 16,
            u@[6] / 16 == 4,
            u@[8] / 64 == 2,
    {
        Uuid { bytes: random_uuid_bytes() }
    }

    /// Reads a UUID: binary data of 16 bytes.
    pub fn de_serialize(reader: &mut SliceReader) -> (r: Result<Uuid, LqError>)
        ensures
            final(reader).spec_data() == old(reader).spec_data(),
            match r {
                Ok(u) => uuid_at(old(reader).spec_data(), old(reader).spec_offset()) == Some(
                    (u@, final(reader).spec_offset()),
                ),
                Err(e) => uuid_at(old(reader).spec_data(), old(reader).spec_offset()) is None
                    && e.kind == ErrorKind::Codec,
            },
    {
        // it's just a normal binary
        let binary = Binary::de_serialize(reader)?;
        Uuid::try_from(binary)
    }

    /// Writes a UUID as binary data.
    pub fn serialize(writer: &mut VecWriter, item: &Uuid)
        ensures
            final(writer)@ == old(writer)@ + binary_bytes(item@),
    {
        Binary::serialize(writer, item.bytes.as_slice())
    }

    /// The 16 bytes.
    pub fn as_slice(&self) -> (s: &[u8])
        ensures
            s@ == self@,
            s@.len() == 16,
    {
        self.bytes.as_slice()
    }

    /// The bytes in lower case hexadecimal digits; a byte below 16 gives one
    /// digit only.
    pub fn as_hex_string(&self) -> (s: String)
        ensures
            s@ == hex_of_bytes(self@),
    {
        let mut result = String::new();
        let mut index: usize = 0;
        proof {
            assert(self@.take(0) =~= Seq::<u8>::empty());
        }
        while index < 16
            invariant
                index <= 16,
                self@.len() == 16,
                result@ == hex_of_bytes(self@.take(index as int)),
            decreases 16 - index,
        {
            let digits = lower_hex(self.bytes[index]);
            proof {
                let done = self@.take(index as int);
                let next = self@.take(index + 1);
                assert(next.drop_last() =~= done);
                assert(next.last() == self@[index as int]);
            }
            result.append(digits.as_str());
            index += 1;
        }
        proof {
            assert(self@.take(16) =~= self@);
        }
        result
    }
}

} // verus!
