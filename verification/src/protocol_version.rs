//! The version of the execution semantics: major, minor, patch, ordered in that order.

use vstd::prelude::*;
use crate::bytesrepr::{
    agrees, append_slice, parse_u32, u32_encoding, u32_from_bytes, u32_round_trip, u32_to_bytes,
    Error, Parsed,
};

verus! {

/// Bytes in a serialized version: three 32-bit numbers.
pub const PROTOCOL_VERSION_SERIALIZED_LENGTH: usize = 12;

/// A protocol version.
#[derive(Clone, Copy, Debug, PartialEq, Eq, Structural, Hash)]
pub struct ProtocolVersion {
    pub major: u32,
    pub minor: u32,
    pub patch: u32,
}

impl ProtocolVersion {
    /// `self` comes before `other`: the first of major, minor, patch in which they differ is
    /// smaller in `self`.
    pub open spec fn spec_lt(self, other: ProtocolVersion) -> bool {
        self.major < other.major || (self.major == other.major && (self.minor < other.minor || (
        self.minor == other.minor && self.patch < other.patch)))
    }

    /// Of two versions exactly one comes first, or they are the same; and the order is
    /// transitive.
    pub proof fn lemma_total_order(self, other: ProtocolVersion, third: ProtocolVersion)
        ensures
            !self.spec_lt(self),
            self.spec_lt(other) || other.spec_lt(self) || self == other,
            self.spec_lt(other) ==> !other.spec_lt(self),
            self.spec_lt(other) && other.spec_lt(third) ==> self.spec_lt(third),
    {
    }

    /// The version from its three parts.
    pub fn from_parts(major: u32, minor: u32, patch: u32) -> (r: ProtocolVersion)
        ensures
            r == (ProtocolVersion { major, minor, patch }),
    {
        ProtocolVersion { major, minor, patch }
    }

    /// Version 1.0.0.
    #[allow(non_snake_case)]
    pub fn V1_0_0() -> (r: ProtocolVersion)
        ensures
            r == (ProtocolVersion { major: 1, minor: 0, patch: 0 }),
    {
        ProtocolVersion { major: 1, minor: 0, patch: 0 }
    }

    /// Whether `self` comes before `other`.
    pub fn lt(&self, other: &ProtocolVersion) -> (r: bool)
        ensures
            r == self.spec_lt(*other),
    {
        if self.major != other.major {
            self.major < other.major
        } else if self.minor != other.minor {
            self.minor < other.minor
        } else {
            self.patch < other.patch
        }
    }

    /// The later of two versions.
    pub fn at_least(self, floor: ProtocolVersion) -> (r: ProtocolVersion)
        ensures
            r == if self.spec_lt(floor) { floor } else { self },
            !r.spec_lt(floor),
            !r.spec_lt(self),
    {
        if self.lt(&floor) {
            floor
        } else {
            self
        }
    }

    /// Major, minor, patch, each as a 32-bit number.
    pub open spec fn encoding(self) -> Seq<u8> {
        u32_encoding(self.major) + u32_encoding(self.minor) + u32_encoding(self.patch)
    }

    /// What decoding makes of a byte sequence.
    pub open spec fn parse(s: Seq<u8>) -> Parsed<ProtocolVersion> {
        match parse_u32(s) {
            Err(e) => Err(e),
            Ok((major, r1)) => match parse_u32(r1) {
                Err(e) => Err(e),
                Ok((minor, r2)) => match parse_u32(r2) {
                    Err(e) => Err(e),
                    Ok((patch, r3)) => Ok((ProtocolVersion { major, minor, patch }, r3)),
                },
            },
        }
    }

    /// Serializes the version.
    pub fn to_bytes(&self) -> (r: Result<Vec<u8>, Error>)
        ensures
            r is Ok,
            r->Ok_0@ == self.encoding(),
            r->Ok_0@.len() == PROTOCOL_VERSION_SERIALIZED_LENGTH,
    {
        let mut out = u32_to_bytes(self.major);
        let minor = u32_to_bytes(self.minor);
        let patch = u32_to_bytes(self.patch);
        append_slice(&mut out, minor.as_slice());
        append_slice(&mut out, patch.as_slice());
        Ok(out)
    }

    /// Reads a version from the front of `bytes` and hands back what follows it.
    pub fn from_bytes(bytes: &[u8]) -> (r: Result<(ProtocolVersion, &[u8]), Error>)
        ensures
            agrees(r, ProtocolVersion::parse(bytes@)),
    {
        let (major, r1) = match u32_from_bytes(bytes) {
            Ok(p) => p,
            Err(e) => {
                return Err(e);
            },
        };
        let (minor, r2) = match u32_from_bytes(r1) {
            Ok(p) => p,
            Err(e) => {
                return Err(e);
            },
        };
        let (patch, r3) = match u32_from_bytes(r2) {
            Ok(p) => p,
            Err(e) => {
                return Err(e);
            },
        };
        Ok((ProtocolVersion { major, minor, patch }, r3))
    }
}

/// Decoding the encoding of a version gives it back, with what followed untouched.
pub proof fn protocol_version_round_trip(v: ProtocolVersion, rest: Seq<u8>)
    ensures
        v.encoding().len() == 12,
        ProtocolVersion::parse(v.encoding() + rest) == Ok::<(ProtocolVersion, Seq<u8>), Error>(
            (v, rest),
        ),
{
    let t2 = u32_encoding(v.patch) + rest;
    let t1 = u32_encoding(v.minor) + t2;
    assert(v.encoding() + rest =~= u32_encoding(v.major) + t1);
    u32_round_trip(v.major, t1);
    u32_round_trip(v.minor, t2);
    u32_round_trip(v.patch, rest);
}

} // verus!
