//! A stored contract: its code, its namespace and the protocol version it was built for.

use vstd::prelude::*;
use crate::bytesrepr::{
    agrees_view, append_slice, bytes_encoding, bytes_from_bytes, bytes_to_bytes, parse_bytes,
    Error, Parsed, U32_SIZE,
};
use crate::key::{Key, UREF_SIZE};
use crate::named_keys::{parse_named_keys, NamedKeys};
use crate::protocol_version::{ProtocolVersion, PROTOCOL_VERSION_SERIALIZED_LENGTH};

verus! {

/// A contract as it is stored.
pub struct Contract {
    bytes: Vec<u8>,
    known_keys: NamedKeys,
    protocol_version: ProtocolVersion,
}

/// What a contract holds, as plain values.
pub struct ContractView {
    pub bytes: Seq<u8>,
    pub known_keys: Map<Seq<char>, Key>,
    pub protocol_version: ProtocolVersion,
}

impl View for Contract {
    type V = ContractView;

    open spec fn view(&self) -> ContractView {
        ContractView {
            bytes: self.spec_bytes(),
            known_keys: self.spec_known_keys()@,
            protocol_version: self.spec_protocol_version(),
        }
    }
}

/// What decoding makes of a byte sequence: the code, the namespace, the version.
pub open spec fn parse_contract(s: Seq<u8>) -> Parsed<ContractView> {
    match parse_bytes(s) {
        Err(e) => Err(e),
        Ok((bytes, r1)) => match parse_named_keys(r1) {
            Err(e) => Err(e),
            Ok((known_keys, r2)) => match ProtocolVersion::parse(r2) {
                Err(e) => Err(e),
                Ok((protocol_version, r3)) => Ok(
                    (ContractView { bytes, known_keys, protocol_version }, r3),
                ),
            },
        },
    }
}

impl Contract {
    /// The executable code.
    pub closed spec fn spec_bytes(&self) -> Seq<u8> {
        self.bytes@
    }

    /// The namespace.
    pub closed spec fn spec_known_keys(&self) -> NamedKeys {
        self.known_keys
    }

    /// The protocol version.
    pub closed spec fn spec_protocol_version(&self) -> ProtocolVersion {
        self.protocol_version
    }

    /// The namespace is well formed.
    pub open spec fn wf(&self) -> bool {
        self.spec_known_keys().wf()
    }

    /// An upper estimate of the size of the variable parts: the code, one serialized reference
    /// for each name, and the version.
    pub open spec fn size_estimate(&self) -> int {
        self.spec_bytes().len() + UREF_SIZE * self.spec_known_keys().entries().len()
            + PROTOCOL_VERSION_SERIALIZED_LENGTH
    }

    /// The estimate and the length of the encoding both stay under the largest 32-bit length
    /// less two length fields, and every name fits its own length prefix.
    pub open spec fn encodable(&self) -> bool {
        &&& self.size_estimate() < u32::MAX - 2 * U32_SIZE
        &&& self.spec_known_keys().encodable()
        &&& self.encoding().len() < u32::MAX - 2 * U32_SIZE
    }

    /// The code as a byte string, the namespace, the version.
    pub open spec fn encoding(&self) -> Seq<u8> {
        bytes_encoding(self.spec_bytes()) + self.spec_known_keys().encoding()
            + self.spec_protocol_version().encoding()
    }

    /// A contract of this code, with this namespace, built for this protocol version.
    pub fn new(bytes: Vec<u8>, known_keys: NamedKeys, protocol_version: ProtocolVersion) -> (r:
        Contract)
        ensures
            r.spec_bytes() == bytes@,
            r.spec_known_keys() == known_keys,
            r.spec_protocol_version() == protocol_version,
    {
        Contract { bytes, known_keys, protocol_version }
    }

    /// Moves every entry of `keys` into the namespace and leaves `keys` empty; where both know
    /// a name, the key of `keys` stays.
    pub fn known_keys_append(&mut self, keys: &mut NamedKeys)
        requires
            old(self).wf(),
            old(keys).wf(),
        ensures
            final(self).wf(),
            final(self).spec_known_keys()@ == old(self).spec_known_keys()@.union_prefer_right(
                old(keys)@,
            ),
            final(self).spec_bytes() == old(self).spec_bytes(),
            final(self).spec_protocol_version() == old(self).spec_protocol_version(),
            final(keys).wf(),
            final(keys)@ == Map::<Seq<char>, Key>::empty(),
    {
        self.known_keys.append(keys);
        *keys = NamedKeys::new();
    }

    /// The namespace.
    pub fn known_keys(&self) -> (r: &NamedKeys)
        ensures
            *r == self.spec_known_keys(),
    {
        &self.known_keys
    }

    /// The namespace, open to change: the contract then holds what the caller leaves there.
    pub fn known_keys_mut(&mut self) -> (r: &mut NamedKeys)
        ensures
            *r == old(self).spec_known_keys(),
            final(self).spec_known_keys() == *final(r),
            final(self).spec_bytes() == old(self).spec_bytes(),
            final(self).spec_protocol_version() == old(self).spec_protocol_version(),
    {
        &mut self.known_keys
    }

    /// The code, the namespace and the protocol version, each on its own.
    pub fn destructure(self) -> (r: (Vec<u8>, NamedKeys, ProtocolVersion))
        ensures
            r.0@ == self.spec_bytes(),
            r.1 == self.spec_known_keys(),
            r.2 == self.spec_protocol_version(),
    {
        (self.bytes, self.known_keys, self.protocol_version)
    }

    /// The executable code.
    pub fn bytes(&self) -> (r: &[u8])
        ensures
            r@ == self.spec_bytes(),
    {
        self.bytes.as_slice()
    }

    /// The protocol version that the contract was built for.
    pub fn protocol_version(&self) -> (r: ProtocolVersion)
        ensures
            r == self.spec_protocol_version(),
    {
        self.protocol_version
    }

    /// Serializes the contract, or fails without output where its size cannot be shown to
    /// stay under the bound.
    pub fn to_bytes(&self) -> (r: Result<Vec<u8>, Error>)
        requires
            self.wf(),
        ensures
            r is Ok <==> self.encodable(),
            r is Ok ==> r->Ok_0@ == self.encoding(),
            r is Err ==> r->Err_0 == Error::OutOfMemoryError,
    {
        let limit: u64 = 4_294_967_287;
        let names = self.known_keys.len();
        if self.bytes.len() >= 4_294_967_287 || names >= 4_294_967_287 {
            return Err(Error::OutOfMemoryError);
        }
        let estimate: u64 = self.bytes.len() as u64 + 38 * (names as u64) + 12;
        if estimate >= limit {
            return Err(Error::OutOfMemoryError);
        }
        let mut out = match bytes_to_bytes(self.bytes.as_slice()) {
            Ok(b) => b,
            Err(e) => {
                return Err(e);
            },
        };
        let keys = match self.known_keys.to_bytes() {
            Ok(b) => b,
            Err(e) => {
                return Err(e);
            },
        };
        let version = match self.protocol_version.to_bytes() {
            Ok(b) => b,
            Err(e) => {
                return Err(e);
            },
        };
        append_slice(&mut out, keys.as_slice());
        append_slice(&mut out, version.as_slice());
        if out.len() >= 4_294_967_287 {
            return Err(Error::OutOfMemoryError);
        }
        Ok(out)
    }

    /// Reads a contract from the front of `bytes` and hands back what follows it.
    pub fn from_bytes(bytes: &[u8]) -> (r: Result<(Contract, &[u8]), Error>)
        ensures
            agrees_view(r, parse_contract(bytes@)),
            r is Ok ==> r->Ok_0.0.wf(),
    {
        let (code, rem1) = match bytes_from_bytes(bytes) {
            Ok(p) => p,
            Err(e) => {
                return Err(e);
            },
        };
        let (known_keys, rem2) = match NamedKeys::from_bytes(rem1) {
            Ok(p) => p,
            Err(e) => {
                return Err(e);
            },
        };
        let (protocol_version, rem3) = match ProtocolVersion::from_bytes(rem2) {
            Ok(p) => p,
            Err(e) => {
                return Err(e);
            },
        };
        Ok((Contract { bytes: code, known_keys, protocol_version }, rem3))
    }
}

/// Decoding the encoding of a contract gives its code, names and version back, with what
/// followed untouched.
pub proof fn contract_round_trip(c: Contract, rest: Seq<u8>)
    requires
        c.wf(),
        c.encodable(),
    ensures
        parse_contract(c.encoding() + rest) == Ok::<(ContractView, Seq<u8>), Error>((c@, rest)),
{
    let t2 = c.spec_protocol_version().encoding() + rest;
    let t1 = c.spec_known_keys().encoding() + t2;
    assert(c.encoding() + rest =~= bytes_encoding(c.spec_bytes()) + t1);
    crate::bytesrepr::bytes_round_trip(c.spec_bytes(), t1);
    crate::named_keys::named_keys_round_trip(c.spec_known_keys(), t2);
    crate::protocol_version::protocol_version_round_trip(c.spec_protocol_version(), rest);
}

} // verus!
