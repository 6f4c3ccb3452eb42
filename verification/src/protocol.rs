//! The messages that clients and servers exchange, and their form on the wire.

use crate::text::{
    hex_encode, hex_text, hexadecimal, hexadecimals_read_back, push_hexadecimal, reads,
};
use rand::Rng;
use std::array::TryFromSliceError;
use std::borrow::Cow;
use vstd::prelude::*;

pub mod client_message;
pub mod datagram;
pub mod decode;
pub mod laws;
pub mod server_message;

pub use client_message::ClientMessage;
pub use decode::DecodeError;
pub use server_message::ServerMessage;

verus! {

/// The largest message that is sent: an MTU of 1500 bytes, as is usual for ethernet, less 40
/// bytes of IPv6 header and 8 of UDP header.
///
/// The limit is on the message, and the datagram's prefix comes on top of it: a datagram with a
/// whole chunk has three bytes more, and over IPv6 on ethernet the network may split it. Chunks
/// keep their size all the same, since both sides must agree on where each of them begins.
pub const DATAGRAM_SIZE_LIMIT: usize = 1452;

/// How much of a file one data message carries: what is left of `DATAGRAM_SIZE_LIMIT` after the
/// tag, the transfer's identifier and the offset.
pub const CHUNK_SIZE: u64 = DATAGRAM_SIZE_LIMIT as u64 - (1 + 8 + 8);

/// The SHA-256 digest of a file.
#[derive(Debug)]
pub struct Hash<'data>(Cow<'data, [u8; 32]>);

impl View for Hash<'_> {
    type V = Seq<u8>;

    closed spec fn view(&self) -> Seq<u8> {
        self.0@
    }
}

impl Hash<'_> {
    /// The same digest, not borrowed from anything.
    pub fn into_owned(self) -> (owned: Hash<'static>)
        ensures
            owned@ == self@,
    {
        match self.0 {
            Cow::Borrowed(bytes) => Hash(Cow::Owned(*bytes)),
            Cow::Owned(bytes) => Hash(Cow::Owned(bytes)),
        }
    }

    /// The digest's 32 bytes.
    pub fn as_bytes(&self) -> (bytes: &[u8])
        ensures
            bytes@ == self@,
            bytes@.len() == 32,
    {
        match &self.0 {
            Cow::Borrowed(bytes) => bytes.as_slice(),
            Cow::Owned(bytes) => bytes.as_slice(),
        }
    }

    /// The digest in lower-case hexadecimal.
    pub fn to_text(&self) -> (text: String)
        ensures
            text@ == hex_text(self@),
    {
        hex_encode(self.as_bytes())
    }
}

impl PartialEq for Hash<'_> {
    fn eq(&self, other: &Self) -> (same: bool) {
        let a = self.as_bytes();
        let b = other.as_bytes();
        let mut i: usize = 0;
        while i < 32
            invariant
                i <= 32,
                a@.len() == 32,
                b@.len() == 32,
                a@ == self@,
                b@ == other@,
                forall|j: int| 0 <= j < i ==> a@[j] == b@[j],
            decreases 32 - i,
        {
            if a[i] != b[i] {
                return false;
            }
            i += 1;
        }
        assert(a@ =~= b@);
        true
    }
}

impl vstd::std_specs::cmp::PartialEqSpecImpl for Hash<'_> {
    open spec fn obeys_eq_spec() -> bool {
        true
    }

    open spec fn eq_spec(&self, other: &Self) -> bool {
        self@ == other@
    }
}

impl Eq for Hash<'_> {

}

impl From<[u8; 32]> for Hash<'static> {
    fn from(value: [u8; 32]) -> (hash: Self)
        ensures
            hash@ == value@,
    {
        Hash(Cow::Owned(value))
    }
}

impl vstd::std_specs::convert::FromSpecImpl<[u8; 32]> for Hash<'static> {
    open spec fn obeys_from_spec() -> bool {
        true
    }

    closed spec fn from_spec(v: [u8; 32]) -> Self {
        Hash(Cow::Owned(v))
    }
}

impl TryFrom<Vec<u8>> for Hash<'static> {
    type Error = Vec<u8>;

    /// Takes exactly 32 bytes; hands any other vector back.
    fn try_from(value: Vec<u8>) -> (hash: Result<Self, Vec<u8>>)
        ensures
            hash is Ok <==> value@.len() == 32,
            hash matches Ok(h) ==> h@ == value@,
            hash matches Err(v) ==> v == value,
    {
        if value.len() != 32 {
            return Err(value);
        }
        let mut bytes: [u8; 32] = [0u8; 32];
        let mut i: usize = 0;
        while i < 32
            invariant
                i <= 32,
                value@.len() == 32,
                forall|j: int| 0 <= j < i ==> bytes@[j] == value@[j],
            decreases 32 - i,
        {
            bytes[i] = value[i];
            i += 1;
        }
        assert(bytes@ =~= value@);
        assert(bytes =~= choose|a: [u8; 32]| a@ == value@);
        Ok(Hash(Cow::Owned(bytes)))
    }
}

impl vstd::std_specs::convert::TryFromSpecImpl<Vec<u8>> for Hash<'static> {
    open spec fn obeys_try_from_spec() -> bool {
        true
    }

    closed spec fn try_from_spec(v: Vec<u8>) -> Result<Self, Vec<u8>> {
        if v@.len() == 32 {
            Ok(Hash(Cow::Owned(choose|a: [u8; 32]| a@ == v@)))
        } else {
            Err(v)
        }
    }
}

/// The error of `<&[u8; 32]>::try_from`, carried through as it is.
#[verifier::external_type_specification]
#[verifier::external_body]
pub struct ExTryFromSliceError(std::array::TryFromSliceError);

/// `<&[u8; 32]>::try_from` on a slice: the slice itself as an array where it has 32 bytes, else
/// an error.
#[verifier::external_body]
fn as_array(bytes: &[u8]) -> (array: Result<&[u8; 32], TryFromSliceError>)
    ensures
        array is Ok <==> bytes@.len() == 32,
        array matches Ok(a) ==> a@ == bytes@,
{
    bytes.try_into()
}

impl<'data> TryFrom<&'data [u8]> for Hash<'data> {
    type Error = TryFromSliceError;

    /// Borrows exactly 32 bytes.
    fn try_from(value: &'data [u8]) -> (hash: Result<Self, TryFromSliceError>)
        ensures
            hash is Ok <==> value@.len() == 32,
            hash matches Ok(h) ==> h@ == value@,
    {
        match as_array(value) {
            Ok(array) => Ok(Hash(Cow::Borrowed(array))),
            Err(err) => Err(err),
        }
    }
}

// Which error comes back for a slice of another length is `as_array`'s to say, so no value is
// promised here; `try_from` states when there is one.
impl<'data> vstd::std_specs::convert::TryFromSpecImpl<&'data [u8]> for Hash<'data> {
    open spec fn obeys_try_from_spec() -> bool {
        false
    }

    closed spec fn try_from_spec(v: &'data [u8]) -> Result<Self, TryFromSliceError> {
        Ok(Hash(Cow::Borrowed(choose|a: &[u8; 32]| a@ == v@)))
    }
}

/// The number by which a client names one of its sessions, chosen by the client when it asks for
/// the session.
#[derive(Debug, Clone, Copy, PartialEq, Eq, PartialOrd, Ord, Hash, Structural)]
pub struct SessionId(pub u32);

impl From<u32> for SessionId {
    fn from(value: u32) -> Self {
        SessionId(value)
    }
}

impl vstd::std_specs::convert::FromSpecImpl<u32> for SessionId {
    open spec fn obeys_from_spec() -> bool {
        true
    }

    open spec fn from_spec(v: u32) -> Self {
        SessionId(v)
    }
}

impl SessionId {
    /// A session number drawn at random.
    pub fn random() -> SessionId {
        SessionId(random_u32())
    }

    /// The number in lower-case hexadecimal, filled up with zeros to four digits.
    pub fn to_text(&self) -> (text: String)
        ensures
            text@ == padded_hexadecimal(self.0 as nat),
    {
        padded_text(self.0 as u64)
    }
}

/// The number by which a server names a transfer, chosen by the server when it accepts the
/// session.
#[derive(Debug, Clone, Copy, PartialEq, Eq, PartialOrd, Ord, Hash, Structural)]
pub struct Identifier(pub u64);

impl From<u64> for Identifier {
    fn from(value: u64) -> Self {
        Identifier(value)
    }
}

impl vstd::std_specs::convert::FromSpecImpl<u64> for Identifier {
    open spec fn obeys_from_spec() -> bool {
        true
    }

    open spec fn from_spec(v: u64) -> Self {
        Identifier(v)
    }
}

impl Identifier {
    /// An identifier drawn at random.
    pub fn random() -> Identifier {
        Identifier(random_u64())
    }

    /// The number in lower-case hexadecimal, filled up with zeros to four digits.
    pub fn to_text(&self) -> (text: String)
        ensures
            text@ == padded_hexadecimal(self.0 as nat),
    {
        padded_text(self.0)
    }
}

/// The hexadecimal digits of `n`, with as many zeros in front as four digits need.
pub open spec fn padded_hexadecimal(n: nat) -> Seq<char> {
    let digits = hexadecimal(n);
    if digits.len() < 4 {
        Seq::new((4 - digits.len()) as nat, |i: int| '0') + digits
    } else {
        digits
    }
}

fn padded_text(n: u64) -> (text: String)
    ensures
        text@ == padded_hexadecimal(n as nat),
{
    reveal_with_fuel(hexadecimal, 4);
    let mut text = String::new();
    proof {
        reveal_strlit("0");
        reveal_strlit("00");
        reveal_strlit("000");
    }
    if n < 0x10 {
        text.append("000");
    } else if n < 0x100 {
        text.append("00");
    } else if n < 0x1000 {
        text.append("0");
    }
    push_hexadecimal(&mut text, n as u128);
    assert(text@ =~= padded_hexadecimal(n as nat));
    text
}

/// `rand::thread_rng` and `rand::Rng::gen`: any number at all.
#[verifier::external_body]
fn random_u32() -> u32 {
    rand::thread_rng().gen()
}

/// As `random_u32`, for eight bytes.
#[verifier::external_body]
fn random_u64() -> u64 {
    rand::thread_rng().gen()
}

/// What is left of `buf` from `pos` on.
pub fn remaining_slice(buf: &[u8], pos: usize) -> (rest: &[u8])
    requires
        pos <= buf@.len(),
    ensures
        rest@ == buf@.skip(pos as int),
{
    let (_, rest) = buf.split_at(pos);
    assert(rest@ =~= buf@.skip(pos as int));
    rest
}

/// A number that is shown has at least four lower-case hexadecimal digits, no more than it takes
/// beyond four, and reads as the number.
pub proof fn shown_numbers_read_back(n: nat)
    ensures
        reads(padded_hexadecimal(n), 16) == n,
        padded_hexadecimal(n).len() >= 4,
        padded_hexadecimal(n).len() > 4 ==> padded_hexadecimal(n)[0] != '0',
{
    hexadecimals_read_back(n);
    let digits = hexadecimal(n);
    if digits.len() < 4 {
        let zeros = Seq::new((4 - digits.len()) as nat, |i: int| '0');
        lemma_leading_zeros(zeros, digits);
    }
}

proof fn lemma_leading_zeros(zeros: Seq<char>, digits: Seq<char>)
    requires
        forall|i: int| 0 <= i < zeros.len() ==> zeros[i] == '0',
    ensures
        reads(zeros + digits, 16) == reads(digits, 16),
    decreases zeros.len() + digits.len(),
{
    let all = zeros + digits;
    if digits.len() > 0 {
        lemma_leading_zeros(zeros, digits.drop_last());
        assert(all.drop_last() =~= zeros + digits.drop_last());
    } else if zeros.len() > 0 {
        lemma_leading_zeros(zeros.drop_last(), digits);
        assert(all.drop_last() =~= zeros.drop_last() + digits);
        assert(all.last() == '0');
    } else {
        assert(all =~= digits);
    }
}

} // verus!
