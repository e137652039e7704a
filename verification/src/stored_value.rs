//! What is stored under a key: an account, a contract or a plain value.

use vstd::prelude::*;
use vstd::wrapping::{i32_specs, u64_specs};
use crate::bytesrepr::{
    agrees, agrees_view, append_slice, bytes_encoding, bytes_from_bytes, bytes_round_trip,
    bytes_to_bytes, parse_bytes, parse_u32, parse_u64, parse_u8, u32_encoding, u32_from_bytes,
    u32_round_trip, u32_to_bytes, u64_encoding, u64_from_bytes, u64_round_trip, u64_to_bytes,
    u8_from_bytes, u8_round_trip, Error, Parsed, U32_SIZE,
};
use crate::contract::{contract_round_trip, parse_contract, Contract, ContractView};
use crate::key::{to_array20, Key};
use crate::named_keys::{named_keys_round_trip, parse_named_keys, NamedKeys};

verus! {

/// Tag of a serialized account.
pub const ACCOUNT_TAG: u8 = 0;
/// Tag of a serialized contract.
pub const CONTRACT_TAG: u8 = 1;
/// Tag of a serialized plain value.
pub const VALUE_TAG: u8 = 2;
/// Tag of a signed 32-bit number.
pub const INT32_TAG: u8 = 0;
/// Tag of an unsigned 64-bit number.
pub const UINT64_TAG: u8 = 1;

/// A plain numeric value.
#[derive(Clone, Copy, Debug, PartialEq, Eq, Structural)]
pub enum Value {
    Int32(i32),
    UInt64(u64),
}

/// The shape of a stored value, as far as addition tells shapes apart.
#[derive(Clone, Copy, Debug, PartialEq, Eq, Structural)]
pub enum TypeTag {
    Account,
    Contract,
    Int32,
    UInt64,
}

/// An addition met a stored value of another shape than that of its delta.
#[derive(Clone, Copy, Debug, PartialEq, Eq, Structural)]
pub struct TypeMismatch {
    pub expected: TypeTag,
    pub found: TypeTag,
}

impl Value {
    /// The shape of the value.
    pub open spec fn spec_type_tag(self) -> TypeTag {
        match self {
            Value::Int32(_) => TypeTag::Int32,
            Value::UInt64(_) => TypeTag::UInt64,
        }
    }

    /// The additive identity of the shape of `self`.
    pub open spec fn spec_zero(self) -> Value {
        match self {
            Value::Int32(_) => Value::Int32(0),
            Value::UInt64(_) => Value::UInt64(0),
        }
    }

    /// The sum of two values of one shape. Both widths wrap around on overflow.
    pub open spec fn spec_wrapping_add(self, delta: Value) -> Value {
        match (self, delta) {
            (Value::Int32(a), Value::Int32(b)) => Value::Int32(i32_specs::wrapping_add(a, b)),
            (Value::UInt64(a), Value::UInt64(b)) => Value::UInt64(u64_specs::wrapping_add(a, b)),
            _ => self,
        }
    }

    /// A tag, then the number: four bytes for the signed width, eight for the unsigned.
    pub open spec fn encoding(self) -> Seq<u8> {
        match self {
            Value::Int32(v) => seq![INT32_TAG] + u32_encoding(v as u32),
            Value::UInt64(v) => seq![UINT64_TAG] + u64_encoding(v),
        }
    }

    /// What decoding makes of a byte sequence.
    pub open spec fn parse(s: Seq<u8>) -> Parsed<Value> {
        match parse_u8(s) {
            Err(e) => Err(e),
            Ok((tag, r1)) => if tag == INT32_TAG {
                match parse_u32(r1) {
                    Err(e) => Err(e),
                    Ok((v, r2)) => Ok((Value::Int32(v as i32), r2)),
                }
            } else if tag == UINT64_TAG {
                match parse_u64(r1) {
                    Err(e) => Err(e),
                    Ok((v, r2)) => Ok((Value::UInt64(v), r2)),
                }
            } else {
                Err(Error::FormattingError)
            },
        }
    }

    /// Reads a value from the front of `bytes` and hands back what follows it.
    pub fn from_bytes(bytes: &[u8]) -> (r: Result<(Value, &[u8]), Error>)
        ensures
            agrees(r, Value::parse(bytes@)),
    {
        let (tag, r1) = match u8_from_bytes(bytes) {
            Ok(p) => p,
            Err(e) => {
                return Err(e);
            },
        };
        if tag == INT32_TAG {
            match u32_from_bytes(r1) {
                Ok((v, r2)) => Ok((Value::Int32(v as i32), r2)),
                Err(e) => Err(e),
            }
        } else if tag == UINT64_TAG {
            match u64_from_bytes(r1) {
                Ok((v, r2)) => Ok((Value::UInt64(v), r2)),
                Err(e) => Err(e),
            }
        } else {
            Err(Error::FormattingError)
        }
    }

    /// The shape of the value.
    pub fn type_tag(&self) -> (r: TypeTag)
        ensures
            r == self.spec_type_tag(),
    {
        match self {
            Value::Int32(_) => TypeTag::Int32,
            Value::UInt64(_) => TypeTag::UInt64,
        }
    }

    /// The additive identity of the shape of `self`.
    pub fn zero(&self) -> (r: Value)
        ensures
            r == self.spec_zero(),
    {
        match self {
            Value::Int32(_) => Value::Int32(0),
            Value::UInt64(_) => Value::UInt64(0),
        }
    }

    /// Adds `delta` to the value, wrapping around on overflow, or reports that the shapes
    /// differ.
    pub fn wrapping_add(self, delta: Value) -> (r: Result<Value, TypeMismatch>)
        ensures
            r == if self.spec_type_tag() == delta.spec_type_tag() {
                Ok::<Value, TypeMismatch>(self.spec_wrapping_add(delta))
            } else {
                Err::<Value, TypeMismatch>(
                    TypeMismatch { expected: delta.spec_type_tag(), found: self.spec_type_tag() },
                )
            },
    {
        match (self, delta) {
            (Value::Int32(a), Value::Int32(b)) => Ok(Value::Int32(a.wrapping_add(b))),
            (Value::UInt64(a), Value::UInt64(b)) => Ok(Value::UInt64(a.wrapping_add(b))),
            _ => Err(TypeMismatch { expected: delta.type_tag(), found: self.type_tag() }),
        }
    }

    /// Serializes the value.
    pub fn to_bytes(&self) -> (r: Vec<u8>)
        ensures
            r@ == self.encoding(),
    {
        let mut out: Vec<u8> = Vec::new();
        match self {
            Value::Int32(v) => {
                out.push(INT32_TAG);
                let b = u32_to_bytes(*v as u32);
                append_slice(&mut out, b.as_slice());
            },
            Value::UInt64(v) => {
                out.push(UINT64_TAG);
                let b = u64_to_bytes(*v);
                append_slice(&mut out, b.as_slice());
            },
        }
        assert(out@ =~= self.encoding());
        out
    }
}

/// An account: its address and its namespace.
pub struct Account {
    address: [u8; 20],
    known_keys: NamedKeys,
}

/// What an account holds, as plain values.
pub struct AccountView {
    pub address: Seq<u8>,
    pub known_keys: Map<Seq<char>, Key>,
}

impl View for Account {
    type V = AccountView;

    open spec fn view(&self) -> AccountView {
        AccountView { address: self.spec_address()@, known_keys: self.spec_known_keys()@ }
    }
}

impl Account {
    /// The address.
    pub closed spec fn spec_address(&self) -> [u8; 20] {
        self.address
    }

    /// The namespace.
    pub closed spec fn spec_known_keys(&self) -> NamedKeys {
        self.known_keys
    }

    /// The namespace is well formed.
    pub open spec fn wf(&self) -> bool {
        self.spec_known_keys().wf()
    }

    /// The address as a byte string, then the namespace.
    pub open spec fn encoding(&self) -> Seq<u8> {
        bytes_encoding(self.spec_address()@) + self.spec_known_keys().encoding()
    }

    /// Every name fits its own length prefix, and the length of the encoding stays under the
    /// largest 32-bit length less two length fields.
    pub open spec fn encodable(&self) -> bool {
        &&& self.spec_known_keys().encodable()
        &&& self.encoding().len() < u32::MAX - 2 * U32_SIZE
    }

    /// What decoding makes of a byte sequence: an address of twenty bytes, then the
    /// namespace.
    pub open spec fn parse(s: Seq<u8>) -> Parsed<AccountView> {
        match parse_bytes(s) {
            Err(e) => Err(e),
            Ok((address, r1)) => if address.len() != 20 {
                Err(Error::FormattingError)
            } else {
                match parse_named_keys(r1) {
                    Err(e) => Err(e),
                    Ok((known_keys, r2)) => Ok((AccountView { address, known_keys }, r2)),
                }
            },
        }
    }

    /// Reads an account from the front of `bytes` and hands back what follows it.
    pub fn from_bytes(bytes: &[u8]) -> (r: Result<(Account, &[u8]), Error>)
        ensures
            agrees_view(r, Account::parse(bytes@)),
            r is Ok ==> r->Ok_0.0.wf(),
    {
        let (raw, r1) = match bytes_from_bytes(bytes) {
            Ok(p) => p,
            Err(e) => {
                return Err(e);
            },
        };
        if raw.len() != 20 {
            return Err(Error::FormattingError);
        }
        let (known_keys, r2) = match NamedKeys::from_bytes(r1) {
            Ok(p) => p,
            Err(e) => {
                return Err(e);
            },
        };
        Ok((Account { address: to_array20(raw.as_slice()), known_keys }, r2))
    }

    /// The account at this address, with this namespace.
    pub fn new(address: [u8; 20], known_keys: NamedKeys) -> (r: Account)
        ensures
            r.spec_address() == address,
            r.spec_known_keys() == known_keys,
    {
        Account { address, known_keys }
    }

    /// The address.
    pub fn address(&self) -> (r: [u8; 20])
        ensures
            r == self.spec_address(),
    {
        self.address
    }

    /// The namespace.
    pub fn known_keys(&self) -> (r: &NamedKeys)
        ensures
            *r == self.spec_known_keys(),
    {
        &self.known_keys
    }

    /// Serializes the account, unless a name is too long for its length prefix.
    pub fn to_bytes(&self) -> (r: Result<Vec<u8>, Error>)
        requires
            self.wf(),
        ensures
            r is Ok <==> self.encodable(),
            r is Ok ==> r->Ok_0@ == self.encoding(),
            r is Err ==> r->Err_0 == Error::OutOfMemoryError,
    {
        let mut out = match bytes_to_bytes(self.address.as_slice()) {
            Ok(b) => b,
            Err(e) => {
                return Err(e);
            },
        };
        let keys = match self.known_keys.to_bytes() {
            Ok(b) => b,
            Err(e) => {
                return Err(e);
            },
        };
        append_slice(&mut out, keys.as_slice());
        if out.len() >= 4_294_967_287 {
            return Err(Error::OutOfMemoryError);
        }
        Ok(out)
    }
}

/// What is stored under a key.
pub enum StoredValue {
    Account(Account),
    Contract(Contract),
    Value(Value),
}

/// A stored value as plain values.
pub enum StoredValueView {
    Account(AccountView),
    Contract(ContractView),
    Value(Value),
}

impl View for StoredValue {
    type V = StoredValueView;

    open spec fn view(&self) -> StoredValueView {
        match self {
            StoredValue::Account(a) => StoredValueView::Account(a@),
            StoredValue::Contract(c) => StoredValueView::Contract(c@),
            StoredValue::Value(v) => StoredValueView::Value(*v),
        }
    }
}

impl StoredValueView {
    /// The shape of the value.
    pub open spec fn type_tag(self) -> TypeTag {
        match self {
            StoredValueView::Account(_) => TypeTag::Account,
            StoredValueView::Contract(_) => TypeTag::Contract,
            StoredValueView::Value(v) => v.spec_type_tag(),
        }
    }

    /// The names that the value knows: those of an account or a contract, none for a plain
    /// value.
    pub open spec fn known_keys(self) -> Option<Map<Seq<char>, Key>> {
        match self {
            StoredValueView::Account(a) => Some(a.known_keys),
            StoredValueView::Contract(c) => Some(c.known_keys),
            StoredValueView::Value(_) => None,
        }
    }
}

impl StoredValue {
    /// The namespace inside is well formed.
    pub open spec fn wf(&self) -> bool {
        match self {
            StoredValue::Account(a) => a.wf(),
            StoredValue::Contract(c) => c.wf(),
            StoredValue::Value(_) => true,
        }
    }

    /// Whether the value can be serialized.
    pub open spec fn encodable(&self) -> bool {
        match self {
            StoredValue::Account(a) => a.encodable(),
            StoredValue::Contract(c) => c.encodable(),
            StoredValue::Value(_) => true,
        }
    }

    /// A tag for the kind, then the account, contract or plain value.
    pub open spec fn encoding(&self) -> Seq<u8> {
        match self {
            StoredValue::Account(a) => seq![ACCOUNT_TAG] + a.encoding(),
            StoredValue::Contract(c) => seq![CONTRACT_TAG] + c.encoding(),
            StoredValue::Value(v) => seq![VALUE_TAG] + v.encoding(),
        }
    }

    /// What decoding makes of a byte sequence.
    pub open spec fn parse(s: Seq<u8>) -> Parsed<StoredValueView> {
        match parse_u8(s) {
            Err(e) => Err(e),
            Ok((tag, r1)) => if tag == ACCOUNT_TAG {
                match Account::parse(r1) {
                    Err(e) => Err(e),
                    Ok((a, r2)) => Ok((StoredValueView::Account(a), r2)),
                }
            } else if tag == CONTRACT_TAG {
                match parse_contract(r1) {
                    Err(e) => Err(e),
                    Ok((c, r2)) => Ok((StoredValueView::Contract(c), r2)),
                }
            } else if tag == VALUE_TAG {
                match Value::parse(r1) {
                    Err(e) => Err(e),
                    Ok((v, r2)) => Ok((StoredValueView::Value(v), r2)),
                }
            } else {
                Err(Error::FormattingError)
            },
        }
    }

    /// Reads a stored value from the front of `bytes` and hands back what follows it.
    pub fn from_bytes(bytes: &[u8]) -> (r: Result<(StoredValue, &[u8]), Error>)
        ensures
            agrees_view(r, StoredValue::parse(bytes@)),
            r is Ok ==> r->Ok_0.0.wf(),
    {
        let (tag, r1) = match u8_from_bytes(bytes) {
            Ok(p) => p,
            Err(e) => {
                return Err(e);
            },
        };
        if tag == ACCOUNT_TAG {
            match Account::from_bytes(r1) {
                Ok((a, r2)) => Ok((StoredValue::Account(a), r2)),
                Err(e) => Err(e),
            }
        } else if tag == CONTRACT_TAG {
            match Contract::from_bytes(r1) {
                Ok((c, r2)) => Ok((StoredValue::Contract(c), r2)),
                Err(e) => Err(e),
            }
        } else if tag == VALUE_TAG {
            match Value::from_bytes(r1) {
                Ok((v, r2)) => Ok((StoredValue::Value(v), r2)),
                Err(e) => Err(e),
            }
        } else {
            Err(Error::FormattingError)
        }
    }

    /// The shape of the value.
    pub fn type_tag(&self) -> (r: TypeTag)
        ensures
            r == self@.type_tag(),
    {
        match self {
            StoredValue::Account(_) => TypeTag::Account,
            StoredValue::Contract(_) => TypeTag::Contract,
            StoredValue::Value(v) => v.type_tag(),
        }
    }

    /// The namespace of an account or a contract; a plain value has none.
    pub fn known_keys(&self) -> (r: Option<&NamedKeys>)
        requires
            self.wf(),
        ensures
            r is Some <==> self@.known_keys() is Some,
            r is Some ==> r->0@ == self@.known_keys()->0 && r->0.wf(),
    {
        match self {
            StoredValue::Account(a) => Some(a.known_keys()),
            StoredValue::Contract(c) => Some(c.known_keys()),
            StoredValue::Value(_) => None,
        }
    }

    /// Serializes the value, or fails without output where it is too large.
    pub fn to_bytes(&self) -> (r: Result<Vec<u8>, Error>)
        requires
            self.wf(),
        ensures
            r is Ok <==> self.encodable(),
            r is Ok ==> r->Ok_0@ == self.encoding(),
            r is Err ==> r->Err_0 == Error::OutOfMemoryError,
    {
        let mut out: Vec<u8> = Vec::new();
        match self {
            StoredValue::Account(a) => {
                out.push(ACCOUNT_TAG);
                let body = match a.to_bytes() {
                    Ok(b) => b,
                    Err(e) => {
                        return Err(e);
                    },
                };
                append_slice(&mut out, body.as_slice());
            },
            StoredValue::Contract(c) => {
                out.push(CONTRACT_TAG);
                let body = match c.to_bytes() {
                    Ok(b) => b,
                    Err(e) => {
                        return Err(e);
                    },
                };
                append_slice(&mut out, body.as_slice());
            },
            StoredValue::Value(v) => {
                out.push(VALUE_TAG);
                let body = v.to_bytes();
                append_slice(&mut out, body.as_slice());
            },
        }
        assert(out@ =~= self.encoding());
        Ok(out)
    }
}

/// Adding `a` and then `b` gives what adding their wrapped sum gives.
pub proof fn wrapping_add_combines(v: Value, a: Value, b: Value)
    requires
        v.spec_type_tag() == a.spec_type_tag(),
        a.spec_type_tag() == b.spec_type_tag(),
    ensures
        v.spec_wrapping_add(a).spec_wrapping_add(b) == v.spec_wrapping_add(a.spec_wrapping_add(b)),
        v.spec_wrapping_add(a).spec_type_tag() == v.spec_type_tag(),
        a.spec_wrapping_add(b).spec_type_tag() == a.spec_type_tag(),
{
}

/// The order of two additions does not matter.
pub proof fn wrapping_add_commutes(v: Value, a: Value, b: Value)
    requires
        v.spec_type_tag() == a.spec_type_tag(),
        a.spec_type_tag() == b.spec_type_tag(),
    ensures
        v.spec_wrapping_add(a).spec_wrapping_add(b) == v.spec_wrapping_add(b).spec_wrapping_add(a),
{
}

/// Decoding the encoding of a plain value gives it back, with what followed untouched.
pub proof fn value_round_trip(v: Value, rest: Seq<u8>)
    ensures
        Value::parse(v.encoding() + rest) == Ok::<(Value, Seq<u8>), Error>((v, rest)),
{
    match v {
        Value::Int32(x) => {
            let tail = u32_encoding(x as u32) + rest;
            assert(v.encoding() + rest =~= seq![INT32_TAG] + tail);
            u8_round_trip(INT32_TAG, tail);
            u32_round_trip(x as u32, rest);
            assert((x as u32) as i32 == x) by (bit_vector);
        },
        Value::UInt64(x) => {
            let tail = u64_encoding(x) + rest;
            assert(v.encoding() + rest =~= seq![UINT64_TAG] + tail);
            u8_round_trip(UINT64_TAG, tail);
            u64_round_trip(x, rest);
        },
    }
}

/// Decoding the encoding of an account gives its address and names back, with what followed
/// untouched.
pub proof fn account_round_trip(a: Account, rest: Seq<u8>)
    requires
        a.wf(),
        a.encodable(),
    ensures
        Account::parse(a.encoding() + rest) == Ok::<(AccountView, Seq<u8>), Error>((a@, rest)),
{
    let tail = a.spec_known_keys().encoding() + rest;
    assert(a.encoding() + rest =~= bytes_encoding(a.spec_address()@) + tail);
    bytes_round_trip(a.spec_address()@, tail);
    named_keys_round_trip(a.spec_known_keys(), rest);
}

/// Decoding the encoding of a stored value gives it back, with what followed untouched.
pub proof fn stored_value_round_trip(v: StoredValue, rest: Seq<u8>)
    requires
        v.wf(),
        v.encodable(),
    ensures
        StoredValue::parse(v.encoding() + rest) == Ok::<(StoredValueView, Seq<u8>), Error>(
            (v@, rest),
        ),
{
    match v {
        StoredValue::Account(a) => {
            let tail = a.encoding() + rest;
            assert(v.encoding() + rest =~= seq![ACCOUNT_TAG] + tail);
            u8_round_trip(ACCOUNT_TAG, tail);
            account_round_trip(a, rest);
        },
        StoredValue::Contract(c) => {
            let tail = c.encoding() + rest;
            assert(v.encoding() + rest =~= seq![CONTRACT_TAG] + tail);
            u8_round_trip(CONTRACT_TAG, tail);
            contract_round_trip(c, rest);
        },
        StoredValue::Value(x) => {
            let tail = x.encoding() + rest;
            assert(v.encoding() + rest =~= seq![VALUE_TAG] + tail);
            u8_round_trip(VALUE_TAG, tail);
            value_round_trip(x, rest);
        },
    }
}

} // verus!
