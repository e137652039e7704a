//! Access rights carried by an unforgeable reference: a set over READ, WRITE and ADD.

use vstd::prelude::*;
use crate::bytesrepr::{agrees, Error, Parsed};

verus! {

/// The number of bytes in a serialized [`AccessRights`].
pub const ACCESS_RIGHTS_SERIALIZED_LENGTH: usize = 1;

/// Bit of the permission to read.
pub const READ_BIT: u8 = 1;
/// Bit of the permission to write.
pub const WRITE_BIT: u8 = 2;
/// Bit of the permission to add.
pub const ADD_BIT: u8 = 4;
/// Every bit that names a permission.
pub const ALL_BITS: u8 = 7;

/// A set of permissions, held as a bit set in one byte.
#[derive(Clone, Copy, Debug, PartialEq, Eq, Structural, Hash)]
pub struct AccessRights {
    bits: u8,
}

impl AccessRights {
    /// Permission to read the value under the associated reference.
    #[allow(non_snake_case)]
    pub fn READ() -> (r: AccessRights)
        ensures
            r.spec_bits() == 1,
            r.wf(),
    {
        AccessRights { bits: 1 }
    }

    /// Permission to write a value under the associated reference.
    #[allow(non_snake_case)]
    pub fn WRITE() -> (r: AccessRights)
        ensures
            r.spec_bits() == 2,
            r.wf(),
    {
        AccessRights { bits: 2 }
    }

    /// Permission to add to the value under the associated reference.
    #[allow(non_snake_case)]
    pub fn ADD() -> (r: AccessRights)
        ensures
            r.spec_bits() == 4,
            r.wf(),
    {
        AccessRights { bits: 4 }
    }

    /// Permission to read or add.
    #[allow(non_snake_case)]
    pub fn READ_ADD() -> (r: AccessRights)
        ensures
            r.spec_bits() == 5,
            r.wf(),
    {
        AccessRights { bits: 5 }
    }

    /// Permission to read or write.
    #[allow(non_snake_case)]
    pub fn READ_WRITE() -> (r: AccessRights)
        ensures
            r.spec_bits() == 3,
            r.wf(),
    {
        AccessRights { bits: 3 }
    }

    /// Permission to add or write.
    #[allow(non_snake_case)]
    pub fn ADD_WRITE() -> (r: AccessRights)
        ensures
            r.spec_bits() == 6,
            r.wf(),
    {
        AccessRights { bits: 6 }
    }

    /// Permission to read, add or write.
    #[allow(non_snake_case)]
    pub fn READ_ADD_WRITE() -> (r: AccessRights)
        ensures
            r.spec_bits() == 7,
            r.wf(),
    {
        AccessRights { bits: 7 }
    }

    /// The bit set as a number.
    pub closed spec fn spec_bits(self) -> u8 {
        self.bits
    }

    /// The rights that a byte stands for.
    pub closed spec fn spec_from_bits(bits: u8) -> AccessRights {
        AccessRights { bits }
    }

    /// Rights are their bit set and nothing more.
    pub broadcast proof fn lemma_bits(bits: u8)
        ensures
            (#[trigger] Self::spec_from_bits(bits)).spec_bits() == bits,
    {
    }

    /// Two rights with one bit set are the same rights.
    pub proof fn lemma_same_bits(self, other: AccessRights)
        requires
            self.spec_bits() == other.spec_bits(),
        ensures
            self == other,
    {
    }

    /// Only the three permission bits may be set.
    pub open spec fn wf(self) -> bool {
        self.spec_bits() <= ALL_BITS
    }

    /// Whether the set holds every permission of `other`.
    pub open spec fn spec_contains(self, other: AccessRights) -> bool {
        self.spec_bits() & other.spec_bits() == other.spec_bits()
    }

    /// The rights with no permission at all.
    pub fn empty() -> (r: AccessRights)
        ensures
            r.spec_bits() == 0,
            r.wf(),
    {
        AccessRights { bits: 0 }
    }

    /// The bit set as a number.
    pub fn bits(self) -> (b: u8)
        ensures
            b == self.spec_bits(),
    {
        self.bits
    }

    /// The rights that a byte stands for: none where it holds a bit that names no permission.
    pub fn from_bits(bits: u8) -> (r: Option<AccessRights>)
        ensures
            bits <= ALL_BITS <==> r is Some,
            r is Some ==> r->0.spec_bits() == bits && r->0.wf(),
    {
        if bits <= ALL_BITS {
            Some(AccessRights { bits })
        } else {
            None
        }
    }

    /// The permissions of both sets together.
    pub fn union(self, other: AccessRights) -> (r: AccessRights)
        ensures
            r.spec_bits() == self.spec_bits() | other.spec_bits(),
            self.wf() && other.wf() ==> r.wf(),
            r.spec_contains(self),
            r.spec_contains(other),
    {
        let a: u8 = self.bits;
        let b: u8 = other.bits;
        assert((a | b) & a == a && (a | b) & b == b) by (bit_vector);
        assert(a <= 7 && b <= 7 ==> (a | b) <= 7) by (bit_vector);
        AccessRights { bits: a | b }
    }

    /// Whether the set holds every permission of `other`.
    pub fn contains(self, other: AccessRights) -> (r: bool)
        ensures
            r == self.spec_contains(other),
    {
        self.bits & other.bits == other.bits
    }

    /// Returns `true` if the READ flag is set.
    pub fn is_readable(self) -> (r: bool)
        ensures
            r == (self.spec_bits() & READ_BIT == READ_BIT),
    {
        self.bits & READ_BIT == READ_BIT
    }

    /// Returns `true` if the WRITE flag is set.
    pub fn is_writeable(self) -> (r: bool)
        ensures
            r == (self.spec_bits() & WRITE_BIT == WRITE_BIT),
    {
        self.bits & WRITE_BIT == WRITE_BIT
    }

    /// Returns `true` if the ADD flag is set.
    pub fn is_addable(self) -> (r: bool)
        ensures
            r == (self.spec_bits() & ADD_BIT == ADD_BIT),
    {
        self.bits & ADD_BIT == ADD_BIT
    }

    /// The name of the combination, or `UNKNOWN` for the empty set and for foreign bits.
    pub fn name(self) -> (r: &'static str)
        ensures
            r@ == Self::spec_name(self.spec_bits()),
    {
        if self.bits == 1 {
            "READ"
        } else if self.bits == 2 {
            "WRITE"
        } else if self.bits == 4 {
            "ADD"
        } else if self.bits == 5 {
            "READ_ADD"
        } else if self.bits == 3 {
            "READ_WRITE"
        } else if self.bits == 6 {
            "ADD_WRITE"
        } else if self.bits == 7 {
            "READ_ADD_WRITE"
        } else {
            "UNKNOWN"
        }
    }

    /// The text that stands for a bit set.
    pub open spec fn spec_name(bits: u8) -> Seq<char> {
        if bits == 1 {
            "READ"@
        } else if bits == 2 {
            "WRITE"@
        } else if bits == 4 {
            "ADD"@
        } else if bits == 5 {
            "READ_ADD"@
        } else if bits == 3 {
            "READ_WRITE"@
        } else if bits == 6 {
            "ADD_WRITE"@
        } else if bits == 7 {
            "READ_ADD_WRITE"@
        } else {
            "UNKNOWN"@
        }
    }

    /// The one byte that stands for the set.
    pub open spec fn encoding(self) -> Seq<u8> {
        seq![self.spec_bits()]
    }

    /// What decoding makes of a byte sequence: the first byte is the set, unless it holds a
    /// bit that names no permission.
    pub open spec fn parse(s: Seq<u8>) -> Parsed<AccessRights> {
        if s.len() < 1 {
            Err(Error::EarlyEndOfStream)
        } else if s[0] > ALL_BITS {
            Err(Error::FormattingError)
        } else {
            Ok((Self::spec_from_bits(s[0]), s.skip(1)))
        }
    }

    /// Serializes the set as its byte.
    pub fn to_bytes(&self) -> (r: Result<Vec<u8>, Error>)
        ensures
            r is Ok,
            r->Ok_0@ == self.encoding(),
    {
        let mut out: Vec<u8> = Vec::new();
        out.push(self.bits);
        assert(out@ =~= self.encoding());
        Ok(out)
    }

    /// Reads one byte as a set of rights and hands back what follows it.
    pub fn from_bytes(bytes: &[u8]) -> (r: Result<(AccessRights, &[u8]), Error>)
        ensures
            agrees(r, Self::parse(bytes@)),
            r is Ok ==> r->Ok_0.0.wf(),
    {
        if bytes.len() < 1 {
            return Err(Error::EarlyEndOfStream);
        }
        let id: u8 = bytes[0];
        match AccessRights::from_bits(id) {
            Some(rights) => {
                let rem = vstd::slice::slice_subrange(bytes, 1, bytes.len());
                assert(rem@ =~= bytes@.skip(1));
                Ok((rights, rem))
            },
            None => Err(Error::FormattingError),
        }
    }
}

/// Decoding the encoding of valid rights gives them back, with what followed untouched.
pub proof fn access_rights_round_trip(v: AccessRights, rest: Seq<u8>)
    requires
        v.wf(),
    ensures
        AccessRights::parse(v.encoding() + rest) == Ok::<(AccessRights, Seq<u8>), Error>((v, rest)),
{
    assert((v.encoding() + rest).skip(1) =~= rest);
}

} // verus!
