//! The local namespace of an account or a contract: names, each with the key it stands for.

use vstd::prelude::*;
use vstd::utf8::*;
use vstd::string::*;
use crate::byte_map::ByteMap;
use crate::bytesrepr::{
    agrees_view, append_slice, copy_slice, fits_length_prefix, parse_string, parse_u32,
    string_encoding, string_from_bytes, string_to_bytes, u32_encoding, u32_from_bytes,
    u32_to_bytes, Error, Parsed,
};
use crate::key::Key;

verus! {

/// A name and the key that it stands for.
pub struct NamedKey {
    pub name: String,
    pub key: Key,
}

/// A mapping from names to keys, held in the order of the names' bytes: the order in which
/// the names were put in leaves no trace.
pub struct NamedKeys {
    map: ByteMap<NamedKey>,
}

/// Two texts with the same UTF-8 bytes are the same text.
pub proof fn lemma_same_bytes_same_text(a: Seq<char>, b: Seq<char>)
    requires
        encode_utf8(a) == encode_utf8(b),
    ensures
        a == b,
{
    encode_utf8_decode_utf8(a);
    encode_utf8_decode_utf8(b);
}

/// One entry: the name as a text, then the key.
pub open spec fn entry_encoding(e: (Seq<char>, Key)) -> Seq<u8> {
    string_encoding(e.0) + e.1.encoding()
}

/// The entries one after the other.
pub open spec fn entries_encoding(es: Seq<(Seq<char>, Key)>) -> Seq<u8>
    decreases es.len(),
{
    if es.len() == 0 {
        Seq::<u8>::empty()
    } else {
        entry_encoding(es[0]) + entries_encoding(es.skip(1))
    }
}

/// Encoding one more entry appends its encoding.
pub proof fn lemma_entries_encoding_push(es: Seq<(Seq<char>, Key)>, e: (Seq<char>, Key))
    ensures
        entries_encoding(es.push(e)) == entries_encoding(es) + entry_encoding(e),
    decreases es.len(),
{
    reveal_with_fuel(entries_encoding, 2);
    if es.len() == 0 {
        assert(es.push(e).skip(1) =~= Seq::<(Seq<char>, Key)>::empty());
        assert(entries_encoding(es.push(e)) =~= entry_encoding(e) + Seq::<u8>::empty());
        assert(entries_encoding(es) + entry_encoding(e) =~= entry_encoding(e));
    } else {
        lemma_entries_encoding_push(es.skip(1), e);
        assert(es.push(e).skip(1) =~= es.skip(1).push(e));
        assert(entries_encoding(es.push(e)) =~= entries_encoding(es) + entry_encoding(e));
    }
}

/// Reads `n` entries from the front of `s` into `acc`, a later entry taking the place of an
/// earlier one with the same name.
pub open spec fn parse_entries(s: Seq<u8>, n: nat, acc: Map<Seq<char>, Key>) -> Parsed<
    Map<Seq<char>, Key>,
>
    decreases n,
{
    if n == 0 {
        Ok((acc, s))
    } else {
        match parse_string(s) {
            Err(e) => Err(e),
            Ok((name, r1)) => match Key::parse(r1) {
                Err(e) => Err(e),
                Ok((key, r2)) => parse_entries(r2, (n - 1) as nat, acc.insert(name, key)),
            },
        }
    }
}

/// What decoding makes of a byte sequence: a count, then that many entries.
pub open spec fn parse_named_keys(s: Seq<u8>) -> Parsed<Map<Seq<char>, Key>> {
    match parse_u32(s) {
        Err(e) => Err(e),
        Ok((n, rest)) => parse_entries(rest, n as nat, Map::empty()),
    }
}

impl View for NamedKeys {
    type V = Map<Seq<char>, Key>;

    closed spec fn view(&self) -> Map<Seq<char>, Key> {
        Map::new(
            |n: Seq<char>| self.map@.contains_key(encode_utf8(n)),
            |n: Seq<char>| self.map@[encode_utf8(n)].key,
        )
    }
}

impl NamedKeys {
    /// Every entry is held under the bytes of its name, and every key is valid.
    pub closed spec fn wf(&self) -> bool {
        &&& self.map.wf()
        &&& forall|id: Seq<u8>| #[trigger]
            self.map@.contains_key(id) ==> encode_utf8(self.map@[id].name@) == id
                && self.map@[id].key.wf()
    }

    /// The entries in the order in which they are held and serialized.
    pub closed spec fn entries(&self) -> Seq<(Seq<char>, Key)> {
        Seq::new(
            self.map.ids().len(),
            |i: int| (self.map.values()[i].name@, self.map.values()[i].key),
        )
    }

    /// Every name is short enough for its length prefix, and the count fits in 32 bits.
    pub open spec fn encodable(&self) -> bool {
        &&& self.entries().len() <= u32::MAX
        &&& forall|i: int|
            0 <= i < self.entries().len() ==> fits_length_prefix(
                encode_utf8(#[trigger] self.entries()[i].0).len(),
            )
    }

    /// The count of entries in four bytes, then the entries.
    pub open spec fn encoding(&self) -> Seq<u8> {
        u32_encoding(self.entries().len() as u32) + entries_encoding(self.entries())
    }

    /// The entries and the view hold the same names with the same keys.
    pub proof fn lemma_entries(&self)
        requires
            self.wf(),
        ensures
            forall|i: int|
                0 <= i < self.entries().len() ==> self@.contains_key(
                    (#[trigger] self.entries()[i]).0,
                ) && self@[self.entries()[i].0] == self.entries()[i].1 && self.entries()[i].1.wf(),
            forall|n: Seq<char>| #[trigger]
                self@.contains_key(n) ==> exists|i: int|
                    0 <= i < self.entries().len() && (#[trigger] self.entries()[i]).0 == n,
            forall|n: Seq<char>| #[trigger] self@.contains_key(n) ==> self@[n].wf(),
    {
        assert forall|i: int| 0 <= i < self.entries().len() implies self@.contains_key(
            (#[trigger] self.entries()[i]).0,
        ) && self@[self.entries()[i].0] == self.entries()[i].1 && self.entries()[i].1.wf() by {
            self.map.lemma_view_at(i);
        }
        assert forall|n: Seq<char>| #[trigger] self@.contains_key(n) implies exists|i: int|
            0 <= i < self.entries().len() && (#[trigger] self.entries()[i]).0 == n by {
            let id = encode_utf8(n);
            self.map.lemma_index_of(id);
            let i = self.map.ids().index_of(id);
            self.map.lemma_view_at(i);
            lemma_same_bytes_same_text(self.map.values()[i].name@, n);
            assert(self.entries()[i].0 == n);
        }
    }

    /// A namespace without names.
    pub fn new() -> (r: NamedKeys)
        ensures
            r.wf(),
            r@ == Map::<Seq<char>, Key>::empty(),
            r.entries().len() == 0,
    {
        let r = NamedKeys { map: ByteMap::new() };
        assert(r@ =~= Map::<Seq<char>, Key>::empty());
        r
    }

    /// The number of names.
    pub fn len(&self) -> (n: usize)
        ensures
            n == self.entries().len(),
    {
        self.map.len()
    }

    /// The key that `name` stands for, if the name is known.
    pub fn get(&self, name: &str) -> (r: Option<Key>)
        requires
            self.wf(),
        ensures
            r == if self@.contains_key(name@) {
                Some(self@[name@])
            } else {
                None
            },
            r is Some ==> r->0.wf(),
    {
        match self.map.get(name.as_bytes()) {
            Some(e) => Some(e.key),
            None => None,
        }
    }

    /// Lets `name` stand for `key`, in place of what it stood for before.
    pub fn insert(&mut self, name: String, key: Key)
        requires
            old(self).wf(),
            key.wf(),
        ensures
            final(self).wf(),
            final(self)@ == old(self)@.insert(name@, key),
    {
        let ghost before = *self;
        let ghost text = name@;
        let id = copy_slice(name.as_str().as_bytes());
        self.map.insert(id, NamedKey { name, key });
        proof {
            assert forall|m: Seq<char>| encode_utf8(m) == encode_utf8(text) implies m == text by {
                lemma_same_bytes_same_text(m, text);
            }
            assert forall|m: Seq<char>| #[trigger]
                self@.contains_key(m) <==> before@.insert(text, key).contains_key(m) by {
                if self.map@.contains_key(encode_utf8(m)) && m != text {
                    assert(before.map@.contains_key(encode_utf8(m)));
                }
            }
            assert(self@ =~= before@.insert(text, key));
        }
    }

    /// The name at place `i` in the order of serialization.
    pub fn name_at(&self, i: usize) -> (r: &String)
        requires
            i < self.entries().len(),
        ensures
            r@ == self.entries()[i as int].0,
    {
        &self.map.value_at(i).name
    }

    /// The key at place `i` in the order of serialization.
    pub fn key_at(&self, i: usize) -> (r: Key)
        requires
            i < self.entries().len(),
        ensures
            r == self.entries()[i as int].1,
    {
        self.map.value_at(i).key
    }

    /// Takes every entry of `other` into `self`; where both know a name, the key of `other`
    /// stays.
    pub fn append(&mut self, other: &NamedKeys)
        requires
            old(self).wf(),
            other.wf(),
        ensures
            final(self).wf(),
            final(self)@ == old(self)@.union_prefer_right(other@),
    {
        let ghost before = *self;
        let ghost es = other.entries();
        proof {
            other.lemma_entries();
        }
        let n = other.len();
        let mut i: usize = 0;
        while i < n
            invariant
                i <= n,
                n == es.len(),
                es == other.entries(),
                other.wf(),
                self.wf(),
                forall|j: int|
                    0 <= j < es.len() ==> other@.contains_key((#[trigger] es[j]).0) && other@[es[j].0]
                        == es[j].1 && es[j].1.wf(),
                forall|m: Seq<char>| #[trigger]
                    self@.contains_key(m) <==> before@.contains_key(m) || exists|j: int|
                        0 <= j < i && (#[trigger] es[j]).0 == m,
                forall|m: Seq<char>| #[trigger]
                    self@.contains_key(m) ==> self@[m] == if exists|j: int|
                        0 <= j < i && (#[trigger] es[j]).0 == m {
                        other@[m]
                    } else {
                        before@[m]
                    },
            decreases n - i,
        {
            let name = other.name_at(i).clone();
            let key = other.key_at(i);
            let ghost prev = self@;
            self.insert(name, key);
            proof {
                assert(self@ == prev.insert(es[i as int].0, es[i as int].1));
                assert forall|m: Seq<char>| #[trigger]
                    self@.contains_key(m) <==> before@.contains_key(m) || exists|j: int|
                        0 <= j < i + 1 && (#[trigger] es[j]).0 == m by {
                    if m == es[i as int].0 {
                        assert(es[i as int].0 == m);
                    }
                    if exists|j: int| 0 <= j < i + 1 && (#[trigger] es[j]).0 == m {
                        let j = choose|j: int| 0 <= j < i + 1 && (#[trigger] es[j]).0 == m;
                        if j < i {
                            assert(es[j].0 == m);
                        }
                    }
                }
                assert forall|m: Seq<char>| #[trigger] self@.contains_key(m) implies self@[m]
                    == if exists|j: int| 0 <= j < i + 1 && (#[trigger] es[j]).0 == m {
                    other@[m]
                } else {
                    before@[m]
                } by {
                    if m == es[i as int].0 {
                        assert(es[i as int].0 == m);
                    } else if exists|j: int| 0 <= j < i + 1 && (#[trigger] es[j]).0 == m {
                        let j = choose|j: int| 0 <= j < i + 1 && (#[trigger] es[j]).0 == m;
                        assert(j < i);
                        assert(es[j].0 == m);
                    }
                }
            }
            i = i + 1;
        }
        proof {
            assert forall|m: Seq<char>| other@.contains_key(m) <==> exists|j: int|
                0 <= j < i && (#[trigger] es[j]).0 == m by {
                if exists|j: int| 0 <= j < i && (#[trigger] es[j]).0 == m {
                    let j = choose|j: int| 0 <= j < i && (#[trigger] es[j]).0 == m;
                    assert(other@.contains_key(es[j].0));
                }
            }
            assert(self@ =~= before@.union_prefer_right(other@));
        }
    }

    /// Serializes the namespace, unless a name is too long for its length prefix.
    pub fn to_bytes(&self) -> (r: Result<Vec<u8>, Error>)
        requires
            self.wf(),
        ensures
            r is Ok <==> self.encodable(),
            r is Ok ==> r->Ok_0@ == self.encoding(),
            r is Err ==> r->Err_0 == Error::OutOfMemoryError,
    {
        let n = self.len();
        if n > u32::MAX as usize {
            return Err(Error::OutOfMemoryError);
        }
        let ghost es = self.entries();
        let mut out = u32_to_bytes(n as u32);
        let mut i: usize = 0;
        while i < n
            invariant
                i <= n,
                n == es.len(),
                es == self.entries(),
                out@ == u32_encoding(n as u32) + entries_encoding(es.take(i as int)),
                forall|j: int|
                    0 <= j < i ==> fits_length_prefix(encode_utf8((#[trigger] es[j]).0).len()),
            decreases n - i,
        {
            let name = self.name_at(i);
            let key = self.key_at(i);
            let nb = match string_to_bytes(name.as_str()) {
                Ok(b) => b,
                Err(e) => {
                    assert(!fits_length_prefix(encode_utf8(self.entries()[i as int].0).len()));
                    return Err(e);
                },
            };
            let kb = match key.to_bytes() {
                Ok(b) => b,
                Err(e) => {
                    return Err(e);
                },
            };
            append_slice(&mut out, nb.as_slice());
            append_slice(&mut out, kb.as_slice());
            proof {
                lemma_entries_encoding_push(es.take(i as int), es[i as int]);
                assert(es.take(i + 1) =~= es.take(i as int).push(es[i as int]));
                assert(out@ =~= u32_encoding(n as u32) + entries_encoding(es.take(i + 1)));
            }
            i = i + 1;
        }
        assert(es.take(i as int) =~= es);
        Ok(out)
    }

    /// Reads a namespace from the front of `bytes` and hands back what follows it.
    pub fn from_bytes(bytes: &[u8]) -> (r: Result<(NamedKeys, &[u8]), Error>)
        ensures
            agrees_view(r, parse_named_keys(bytes@)),
            r is Ok ==> r->Ok_0.0.wf(),
    {
        let (n, rest) = match u32_from_bytes(bytes) {
            Ok(p) => p,
            Err(e) => {
                return Err(e);
            },
        };
        let mut acc = NamedKeys::new();
        let mut cur: &[u8] = rest;
        let mut left: u32 = n;
        while left > 0
            invariant
                acc.wf(),
                parse_u32(bytes@) == Ok::<(u32, Seq<u8>), Error>((n, rest@)),
                parse_entries(cur@, left as nat, acc@) == parse_entries(
                    rest@,
                    n as nat,
                    Map::<Seq<char>, Key>::empty(),
                ),
            decreases left,
        {
            let (name, r1) = match string_from_bytes(cur) {
                Ok(p) => p,
                Err(e) => {
                    return Err(e);
                },
            };
            let (key, r2) = match Key::from_bytes(r1) {
                Ok(p) => p,
                Err(e) => {
                    return Err(e);
                },
            };
            acc.insert(name, key);
            cur = r2;
            left = left - 1;
        }
        Ok((acc, cur))
    }
}

/// The map that reading `es` into `acc` gives: a later entry takes the place of an earlier one
/// with the same name.
pub open spec fn entries_map(acc: Map<Seq<char>, Key>, es: Seq<(Seq<char>, Key)>) -> Map<
    Seq<char>,
    Key,
>
    decreases es.len(),
{
    if es.len() == 0 {
        acc
    } else {
        entries_map(acc.insert(es[0].0, es[0].1), es.skip(1))
    }
}

/// Decoding the encoding of entries reads them back, in their order.
pub proof fn lemma_parse_entries(
    es: Seq<(Seq<char>, Key)>,
    rest: Seq<u8>,
    acc: Map<Seq<char>, Key>,
)
    requires
        forall|i: int|
            0 <= i < es.len() ==> (#[trigger] es[i]).1.wf() && encode_utf8(es[i].0).len()
                <= u32::MAX,
    ensures
        parse_entries(entries_encoding(es) + rest, es.len(), acc) == Ok::<
            (Map<Seq<char>, Key>, Seq<u8>),
            Error,
        >((entries_map(acc, es), rest)),
    decreases es.len(),
{
    if es.len() == 0 {
        assert(entries_encoding(es) + rest =~= rest);
    } else {
        let tail = entries_encoding(es.skip(1)) + rest;
        let after_name = es[0].1.encoding() + tail;
        assert(entries_encoding(es) + rest =~= string_encoding(es[0].0) + after_name);
        crate::bytesrepr::string_round_trip(es[0].0, after_name);
        crate::key::key_round_trip(es[0].1, tail);
        assert forall|i: int| 0 <= i < es.skip(1).len() implies (#[trigger] es.skip(1)[i]).1.wf()
            && encode_utf8(es.skip(1)[i].0).len() <= u32::MAX by {
            assert(es.skip(1)[i] == es[i + 1]);
        }
        lemma_parse_entries(es.skip(1), rest, acc.insert(es[0].0, es[0].1));
    }
}

/// Whether an entry of `es` has the name `n`.
pub open spec fn has_name(es: Seq<(Seq<char>, Key)>, n: Seq<char>) -> bool {
    exists|i: int| 0 <= i < es.len() && (#[trigger] es[i]).0 == n
}

/// Reading entries that agree with a map `m` into `acc` gives `acc` with the names of the
/// entries set as `m` has them.
pub proof fn lemma_entries_map(
    acc: Map<Seq<char>, Key>,
    es: Seq<(Seq<char>, Key)>,
    m: Map<Seq<char>, Key>,
)
    requires
        forall|i: int|
            0 <= i < es.len() ==> m.contains_key((#[trigger] es[i]).0) && m[es[i].0] == es[i].1,
    ensures
        forall|n: Seq<char>| #[trigger]
            entries_map(acc, es).contains_key(n) <==> acc.contains_key(n) || has_name(es, n),
        forall|n: Seq<char>| has_name(es, n) ==> #[trigger] entries_map(acc, es)[n] == m[n],
        forall|n: Seq<char>|
            acc.contains_key(n) && !has_name(es, n) ==> #[trigger] entries_map(acc, es)[n]
                == acc[n],
    decreases es.len(),
{
    if es.len() > 0 {
        let acc1 = acc.insert(es[0].0, es[0].1);
        let es1 = es.skip(1);
        assert forall|i: int| 0 <= i < es1.len() implies m.contains_key((#[trigger] es1[i]).0)
            && m[es1[i].0] == es1[i].1 by {
            assert(es1[i] == es[i + 1]);
        }
        lemma_entries_map(acc1, es1, m);
        let full = entries_map(acc, es);
        let inner = entries_map(acc1, es1);
        assert(full == inner);
        assert forall|n: Seq<char>| #[trigger]
            has_name(es, n) <==> (n == es[0].0 || has_name(es1, n)) by {
            if has_name(es, n) {
                let i = choose|i: int| 0 <= i < es.len() && (#[trigger] es[i]).0 == n;
                if i > 0 {
                    assert(es1[i - 1] == es[i]);
                }
            }
            if has_name(es1, n) {
                let i = choose|i: int| 0 <= i < es1.len() && (#[trigger] es1[i]).0 == n;
                assert(es[i + 1] == es1[i]);
            }
            if n == es[0].0 {
                assert(es[0].0 == n);
            }
        }
        assert forall|n: Seq<char>| #[trigger]
            entries_map(acc, es).contains_key(n) <==> acc.contains_key(n) || has_name(es, n) by {
            assert(has_name(es, n) <==> (n == es[0].0 || has_name(es1, n)));
            assert(inner.contains_key(n) <==> acc1.contains_key(n) || has_name(es1, n));
        }
        assert forall|n: Seq<char>| has_name(es, n) implies #[trigger] entries_map(acc, es)[n]
            == m[n] by {
            assert(has_name(es, n) <==> (n == es[0].0 || has_name(es1, n)));
            assert(es[0].0 == n ==> m[n] == es[0].1);
            if has_name(es1, n) {
                assert(inner[n] == m[n]);
            } else {
                assert(acc1.contains_key(n));
                assert(inner[n] == acc1[n]);
            }
        }
        assert forall|n: Seq<char>| acc.contains_key(n) && !has_name(es, n) implies #[trigger] entries_map(
            acc,
            es,
        )[n] == acc[n] by {
            assert(has_name(es, n) <==> (n == es[0].0 || has_name(es1, n)));
            assert(acc1.contains_key(n) && !has_name(es1, n));
            assert(inner[n] == acc1[n]);
        }
    }
}

/// Decoding the encoding of a namespace gives its names and keys back, with what followed
/// untouched.
pub proof fn named_keys_round_trip(keys: NamedKeys, rest: Seq<u8>)
    requires
        keys.wf(),
        keys.encodable(),
    ensures
        parse_named_keys(keys.encoding() + rest) == Ok::<(Map<Seq<char>, Key>, Seq<u8>), Error>(
            (keys@, rest),
        ),
{
    let es = keys.entries();
    let n = es.len() as u32;
    let empty = Map::<Seq<char>, Key>::empty();
    keys.lemma_entries();
    crate::bytesrepr::u32_round_trip(n, entries_encoding(es) + rest);
    assert(keys.encoding() + rest =~= u32_encoding(n) + (entries_encoding(es) + rest));
    lemma_parse_entries(es, rest, empty);
    lemma_entries_map(empty, es, keys@);
    assert forall|n: Seq<char>| keys@.contains_key(n) implies has_name(es, n) by {
        let i = choose|i: int| 0 <= i < es.len() && (#[trigger] es[i]).0 == n;
        assert(es[i].0 == n);
    }
    assert(entries_map(empty, es) =~= keys@);
}

} // verus!
