//! Typed addresses into the global state.

use vstd::prelude::*;
use crate::access_rights::AccessRights;
use crate::bytesrepr::{
    agrees, append_slice, bytes_encoding, bytes_from_bytes, bytes_round_trip, bytes_to_bytes,
    parse_bytes, parse_u8, u8_from_bytes, u8_round_trip, Error, Parsed,
};

verus! {

/// Tag of an account key.
pub const ACCOUNT_ID: u8 = 0;
/// Tag of a hash key.
pub const HASH_ID: u8 = 1;
/// Tag of an unforgeable reference.
pub const UREF_ID: u8 = 2;
/// Bytes in the address of an account.
pub const ACCOUNT_ADDR_SIZE: usize = 20;
/// Bytes in a hash and in the address of an unforgeable reference.
pub const HASH_SIZE: usize = 32;
/// Bytes in a serialized unforgeable reference: tag, length prefix, address and rights.
pub const UREF_SIZE: usize = 38;

/// An address into the global state.
#[derive(Clone, Copy, Debug, PartialEq, Eq, Hash)]
pub enum Key {
    /// The account with this address.
    Account([u8; 20]),
    /// The immutable content address of a contract.
    Hash([u8; 32]),
    /// A reference with the rights that its holder has on the cell it points to.
    URef([u8; 32], AccessRights),
}

/// The array of twenty bytes that holds `s`.
pub open spec fn array20(s: Seq<u8>) -> [u8; 20] {
    choose|a: [u8; 20]| a@ == s
}

/// The array of thirty-two bytes that holds `s`.
pub open spec fn array32(s: Seq<u8>) -> [u8; 32] {
    choose|a: [u8; 32]| a@ == s
}

/// An array is fixed by the bytes it holds.
pub proof fn lemma_array20(a: [u8; 20])
    ensures
        array20(a@) == a,
{
    let b = array20(a@);
    assert(b@ == a@);
    assert(b =~= a);
}

/// An array is fixed by the bytes it holds.
pub proof fn lemma_array32(a: [u8; 32])
    ensures
        array32(a@) == a,
{
    let b = array32(a@);
    assert(b@ == a@);
    assert(b =~= a);
}

/// Copies twenty bytes into an array.
pub fn to_array20(s: &[u8]) -> (a: [u8; 20])
    requires
        s@.len() == 20,
    ensures
        a@ == s@,
        a == array20(s@),
{
    let mut a: [u8; 20] = [0u8; 20];
    let mut i: usize = 0;
    while i < 20
        invariant
            i <= 20,
            s@.len() == 20,
            forall|j: int| 0 <= j < i ==> a@[j] == s@[j],
        decreases 20 - i,
    {
        a[i] = s[i];
        i = i + 1;
    }
    assert(a@ =~= s@);
    proof {
        lemma_array20(a);
    }
    a
}

/// Copies thirty-two bytes into an array.
pub fn to_array32(s: &[u8]) -> (a: [u8; 32])
    requires
        s@.len() == 32,
    ensures
        a@ == s@,
        a == array32(s@),
{
    let mut a: [u8; 32] = [0u8; 32];
    let mut i: usize = 0;
    while i < 32
        invariant
            i <= 32,
            s@.len() == 32,
            forall|j: int| 0 <= j < i ==> a@[j] == s@[j],
        decreases 32 - i,
    {
        a[i] = s[i];
        i = i + 1;
    }
    assert(a@ =~= s@);
    proof {
        lemma_array32(a);
    }
    a
}

impl Key {
    /// The tag that tells the three kinds apart.
    pub open spec fn tag(self) -> u8 {
        match self {
            Key::Account(_) => ACCOUNT_ID,
            Key::Hash(_) => HASH_ID,
            Key::URef(_, _) => UREF_ID,
        }
    }

    /// The address that the key holds.
    pub open spec fn address(self) -> Seq<u8> {
        match self {
            Key::Account(a) => a@,
            Key::Hash(h) => h@,
            Key::URef(a, _) => a@,
        }
    }

    /// The identity of the cell that the key denotes: its tag and address. The rights of a
    /// reference are no part of it.
    pub open spec fn storage_id(self) -> Seq<u8> {
        seq![self.tag()] + self.address()
    }

    /// The rights have no bit outside the three permissions.
    pub open spec fn wf(self) -> bool {
        match self {
            Key::URef(_, r) => r.wf(),
            _ => true,
        }
    }

    /// Tag, length-prefixed address, and for a reference its rights.
    pub open spec fn encoding(self) -> Seq<u8> {
        match self {
            Key::Account(a) => seq![ACCOUNT_ID] + bytes_encoding(a@),
            Key::Hash(h) => seq![HASH_ID] + bytes_encoding(h@),
            Key::URef(a, r) => seq![UREF_ID] + bytes_encoding(a@) + r.encoding(),
        }
    }

    /// What decoding makes of a byte sequence.
    pub open spec fn parse(s: Seq<u8>) -> Parsed<Key> {
        match parse_u8(s) {
            Err(e) => Err(e),
            Ok((tag, r1)) => if tag > UREF_ID {
                Err(Error::FormattingError)
            } else {
                match parse_bytes(r1) {
                    Err(e) => Err(e),
                    Ok((addr, r2)) => if tag == ACCOUNT_ID {
                        if addr.len() != 20 {
                            Err(Error::FormattingError)
                        } else {
                            Ok((Key::Account(array20(addr)), r2))
                        }
                    } else if addr.len() != 32 {
                        Err(Error::FormattingError)
                    } else if tag == HASH_ID {
                        Ok((Key::Hash(array32(addr)), r2))
                    } else {
                        match AccessRights::parse(r2) {
                            Err(e) => Err(e),
                            Ok((rights, r3)) => Ok((Key::URef(array32(addr), rights), r3)),
                        }
                    },
                }
            },
        }
    }

    /// The identity of the cell that the key denotes, as bytes.
    pub fn storage_bytes(&self) -> (r: Vec<u8>)
        ensures
            r@ == self.storage_id(),
    {
        let mut out: Vec<u8> = Vec::new();
        match self {
            Key::Account(a) => {
                out.push(ACCOUNT_ID);
                append_slice(&mut out, a.as_slice());
            },
            Key::Hash(h) => {
                out.push(HASH_ID);
                append_slice(&mut out, h.as_slice());
            },
            Key::URef(a, _) => {
                out.push(UREF_ID);
                append_slice(&mut out, a.as_slice());
            },
        }
        assert(out@ =~= self.storage_id());
        out
    }

    /// The key without the rights it carries: a reference comes back with no rights, any other
    /// key as it is.
    pub fn normalize(self) -> (r: Key)
        ensures
            r.storage_id() == self.storage_id(),
            r.wf(),
            match self {
                Key::URef(a, _) => r == Key::URef(a, AccessRights::spec_from_bits(0)),
                _ => r == self,
            },
    {
        match self {
            Key::URef(a, _) => {
                let none = AccessRights::empty();
                proof {
                    AccessRights::lemma_bits(0);
                    none.lemma_same_bits(AccessRights::spec_from_bits(0));
                }
                Key::URef(a, none)
            },
            other => other,
        }
    }

    /// Whether two keys denote the same cell.
    pub fn same_cell(&self, other: &Key) -> (r: bool)
        ensures
            r == (self.storage_id() == other.storage_id()),
    {
        let a = self.storage_bytes();
        let b = other.storage_bytes();
        let o = crate::byte_map::compare_bytes(a.as_slice(), b.as_slice());
        o == crate::byte_map::Order::Equal
    }

    /// The rights that the key carries, if it is a reference.
    pub fn access_rights(&self) -> (r: Option<AccessRights>)
        ensures
            r == match *self {
                Key::URef(_, rights) => Some(rights),
                _ => None,
            },
    {
        match self {
            Key::URef(_, rights) => Some(*rights),
            _ => None,
        }
    }

    /// Serializes the key.
    pub fn to_bytes(&self) -> (r: Result<Vec<u8>, Error>)
        ensures
            r is Ok,
            r->Ok_0@ == self.encoding(),
    {
        let mut out: Vec<u8> = Vec::new();
        match self {
            Key::Account(a) => {
                out.push(ACCOUNT_ID);
                let body = bytes_to_bytes(a.as_slice());
                match body {
                    Ok(b) => {
                        append_slice(&mut out, b.as_slice());
                    },
                    Err(e) => {
                        return Err(e);
                    },
                }
            },
            Key::Hash(h) => {
                out.push(HASH_ID);
                let body = bytes_to_bytes(h.as_slice());
                match body {
                    Ok(b) => {
                        append_slice(&mut out, b.as_slice());
                    },
                    Err(e) => {
                        return Err(e);
                    },
                }
            },
            Key::URef(a, rights) => {
                out.push(UREF_ID);
                let body = bytes_to_bytes(a.as_slice());
                match body {
                    Ok(b) => {
                        append_slice(&mut out, b.as_slice());
                    },
                    Err(e) => {
                        return Err(e);
                    },
                }
                out.push(rights.bits());
            },
        }
        assert(out@ =~= self.encoding());
        Ok(out)
    }

    /// Reads a key from the front of `bytes` and hands back what follows it.
    pub fn from_bytes(bytes: &[u8]) -> (r: Result<(Key, &[u8]), Error>)
        ensures
            agrees(r, Key::parse(bytes@)),
            r is Ok ==> r->Ok_0.0.wf(),
    {
        let (tag, r1) = match u8_from_bytes(bytes) {
            Ok(p) => p,
            Err(e) => {
                return Err(e);
            },
        };
        if tag > UREF_ID {
            return Err(Error::FormattingError);
        }
        let (addr, r2) = match bytes_from_bytes(r1) {
            Ok(p) => p,
            Err(e) => {
                return Err(e);
            },
        };
        if tag == ACCOUNT_ID {
            if addr.len() != 20 {
                return Err(Error::FormattingError);
            }
            return Ok((Key::Account(to_array20(addr.as_slice())), r2));
        }
        if addr.len() != 32 {
            return Err(Error::FormattingError);
        }
        if tag == HASH_ID {
            return Ok((Key::Hash(to_array32(addr.as_slice())), r2));
        }
        let (rights, r3) = match AccessRights::from_bytes(r2) {
            Ok(p) => p,
            Err(e) => {
                return Err(e);
            },
        };
        Ok((Key::URef(to_array32(addr.as_slice()), rights), r3))
    }
}

/// Decoding the encoding of a key gives it back, with what followed untouched.
pub proof fn key_round_trip(k: Key, rest: Seq<u8>)
    requires
        k.wf(),
    ensures
        Key::parse(k.encoding() + rest) == Ok::<(Key, Seq<u8>), Error>((k, rest)),
{
    let tail = match k {
        Key::Account(a) => bytes_encoding(a@) + rest,
        Key::Hash(h) => bytes_encoding(h@) + rest,
        Key::URef(a, r) => bytes_encoding(a@) + (r.encoding() + rest),
    };
    assert(k.encoding() + rest =~= seq![k.tag()] + tail);
    u8_round_trip(k.tag(), tail);
    match k {
        Key::Account(a) => {
            bytes_round_trip(a@, rest);
            lemma_array20(a);
        },
        Key::Hash(h) => {
            bytes_round_trip(h@, rest);
            lemma_array32(h);
        },
        Key::URef(a, r) => {
            bytes_round_trip(a@, r.encoding() + rest);
            lemma_array32(a);
            crate::access_rights::access_rights_round_trip(r, rest);
        },
    }
}

/// Two keys denote one cell exactly when they are of one kind and hold one address; the
/// rights of a reference play no part.
pub proof fn storage_id_is_tag_and_address(a: Key, b: Key)
    ensures
        a.storage_id() == b.storage_id() <==> a.tag() == b.tag() && a.address() == b.address(),
{
    if a.storage_id() == b.storage_id() {
        assert(a.storage_id()[0] == a.tag());
        assert(b.storage_id()[0] == b.tag());
        assert(a.storage_id().skip(1) =~= a.address());
        assert(b.storage_id().skip(1) =~= b.address());
    }
}

} // verus!
