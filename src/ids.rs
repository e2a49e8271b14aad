//! Identities: applications, chains and account owners, held as plain bytes.

use vstd::prelude::*;

use crate::digest::Digest;
use crate::encoding::{decode_hex, hex_bytes, is_hex_text, trimmed_bytes, trimmed_utf8};
use crate::keyed::SameKey;

verus! {

/// Identifier of a monitored application: the hash of its description.
#[derive(Clone, Copy, Debug)]
pub struct ApplicationId {
    pub application_description_hash: Digest,
}

/// Identifier of a chain.
#[derive(Clone, Copy, Debug)]
pub struct ChainId(pub Digest);

/// An account owner.
#[derive(Clone, Copy, Debug)]
pub enum Owner {
    /// A reserved owner, identified by one byte.
    Reserved(u8),
    /// A 32-byte address.
    Address32(Digest),
    /// A 20-byte address.
    Address20([u8; 20]),
}

impl SameKey for Digest {
    fn same_key(&self, other: &Digest) -> (r: bool) {
        let r = self.same(other);
        assert(r ==> self.0 =~= other.0);
        r
    }
}

impl SameKey for ApplicationId {
    fn same_key(&self, other: &ApplicationId) -> (r: bool) {
        self.application_description_hash.same_key(&other.application_description_hash)
    }
}

impl SameKey for ChainId {
    fn same_key(&self, other: &ChainId) -> (r: bool) {
        self.0.same_key(&other.0)
    }
}

/// Whether two 20-byte addresses are equal.
fn same_address20(a: &[u8; 20], b: &[u8; 20]) -> (r: bool)
    ensures
        r == (*a == *b),
{
    let mut i: usize = 0;
    while i < 20
        invariant
            0 <= i <= 20,
            a@.len() == 20,
            b@.len() == 20,
            forall|j: int| 0 <= j < i ==> a@[j] == b@[j],
        decreases 20 - i,
    {
        if a[i] != b[i] {
            return false;
        }
        i = i + 1;
    }
    assert(*a =~= *b);
    true
}

impl SameKey for Owner {
    fn same_key(&self, other: &Owner) -> (r: bool) {
        match (self, other) {
            (Owner::Reserved(a), Owner::Reserved(b)) => *a == *b,
            (Owner::Address32(a), Owner::Address32(b)) => a.same_key(b),
            (Owner::Address20(a), Owner::Address20(b)) => same_address20(a, b),
            _ => false,
        }
    }
}

} // verus!

verus! {

/// Why owner text was refused.
#[derive(Clone, Copy, Debug, PartialEq, Eq, Structural)]
pub enum OwnerParseError {
    /// The text is empty once trimmed.
    Empty,
    /// The text is not hexadecimal.
    InvalidHex,
    /// The text denotes fewer than 20 bytes.
    TooShort,
}

impl OwnerParseError {
    /// A message describing the error.
    pub fn message(&self) -> &'static str {
        match self {
            OwnerParseError::Empty => "value is empty",
            OwnerParseError::InvalidHex => "invalid hex string",
            OwnerParseError::TooShort => "admin_owner must be at least 20 bytes",
        }
    }
}

/// Trimmed owner text without a leading `0x`.
pub open spec fn owner_digits(t: Seq<u8>) -> Seq<u8> {
    if t.len() >= 2 && t[0] == 48 && t[1] == 120 {
        t.subrange(2, t.len() as int)
    } else {
        t
    }
}

/// What parsing owner text whose trimmed bytes are `t` gives: the last 20
/// of the bytes its hex digits denote, as a 20-byte address.
pub open spec fn owner_from_text(t: Seq<u8>) -> Result<Seq<u8>, OwnerParseError> {
    let digits = owner_digits(t);
    let bytes = hex_bytes(digits);
    if t.len() == 0 {
        Err(OwnerParseError::Empty)
    } else if !is_hex_text(digits) {
        Err(OwnerParseError::InvalidHex)
    } else if bytes.len() < 20 {
        Err(OwnerParseError::TooShort)
    } else {
        Ok(bytes.subrange(bytes.len() - 20, bytes.len() as int))
    }
}

/// Parses an owner from the bytes of trimmed owner text: an optional `0x`
/// is ignored, and the last 20 bytes the hex digits denote make a 20-byte
/// address.
pub fn parse_owner_from_trimmed(trimmed: &[u8]) -> (r: Result<Owner, OwnerParseError>)
    ensures
        match owner_from_text(trimmed@) {
            Ok(addr) => r matches Ok(Owner::Address20(a)) && a@ == addr,
            Err(e) => r == Err::<Owner, OwnerParseError>(e),
        },
{
    let n = trimmed.len();
    if n == 0 {
        return Err(OwnerParseError::Empty);
    }
    let start: usize = if n >= 2 && trimmed[0] == 48u8 && trimmed[1] == 120u8 {
        2
    } else {
        0
    };
    let digits = vstd::slice::slice_subrange(trimmed, start, n);
    assert(digits@ == owner_digits(trimmed@));
    let bytes = match decode_hex(digits) {
        Some(b) => b,
        None => {
            return Err(OwnerParseError::InvalidHex);
        },
    };
    let len = bytes.len();
    if len < 20 {
        return Err(OwnerParseError::TooShort);
    }
    let mut addr = [0u8; 20];
    let mut i: usize = 0;
    while i < 20
        invariant
            len == bytes@.len(),
            len >= 20,
            addr@.len() == 20,
            0 <= i <= 20,
            forall|j: int| 0 <= j < i ==> addr@[j] == bytes@[len - 20 + j],
        decreases 20 - i,
    {
        addr[i] = bytes[len - 20 + i];
        i = i + 1;
    }
    assert(addr@ =~= bytes@.subrange(len - 20, len as int));
    Ok(Owner::Address20(addr))
}

/// Parses an owner from hex text: surrounding whitespace and an optional
/// `0x` are ignored, and the last 20 bytes make a 20-byte address.
pub fn parse_owner_from_hex(value: &str) -> (r: Result<Owner, OwnerParseError>)
    ensures
        match owner_from_text(trimmed_utf8(value@)) {
            Ok(addr) => r matches Ok(Owner::Address20(a)) && a@ == addr,
            Err(e) => r == Err::<Owner, OwnerParseError>(e),
        },
{
    let trimmed = trimmed_bytes(value);
    parse_owner_from_trimmed(trimmed.as_slice())
}

} // verus!
