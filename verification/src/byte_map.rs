//! A map keyed by byte strings, kept in lexicographic order of its identifiers so that
//! equal contents always give one and the same sequence of entries.

use vstd::prelude::*;
use crate::bytesrepr::copy_slice;

verus! {

/// How two byte strings stand to each other in lexicographic order.
#[derive(Debug, PartialEq, Eq, Clone, Copy, Structural)]
pub enum Order {
    Less,
    Equal,
    Greater,
}

/// `a` comes before `b`: at the first place where they differ `a` holds the smaller byte, or
/// `a` ends there and `b` goes on.
pub open spec fn lex_lt(a: Seq<u8>, b: Seq<u8>) -> bool {
    exists|k: int| #[trigger] differ_at(a, b, k)
}

/// `a` and `b` agree on their first `k` bytes, and at place `k` the order is decided for `a`.
pub open spec fn differ_at(a: Seq<u8>, b: Seq<u8>, k: int) -> bool {
    &&& 0 <= k <= a.len()
    &&& k < b.len()
    &&& forall|j: int| 0 <= j < k ==> a[j] == b[j]
    &&& (k < a.len() ==> a[k] < b[k])
}

/// No byte string comes before itself.
pub proof fn lex_lt_irreflexive(a: Seq<u8>)
    ensures
        !lex_lt(a, a),
{
}

/// The order is transitive.
pub proof fn lex_lt_transitive(a: Seq<u8>, b: Seq<u8>, c: Seq<u8>)
    requires
        lex_lt(a, b),
        lex_lt(b, c),
    ensures
        lex_lt(a, c),
{
    let k1 = choose|k: int| #[trigger] differ_at(a, b, k);
    let k2 = choose|k: int| #[trigger] differ_at(b, c, k);
    if k1 <= k2 {
        assert(differ_at(a, c, k1));
    } else {
        assert(differ_at(a, c, k2));
    }
}

/// Of two byte strings at most one comes before the other.
pub proof fn lex_lt_asymmetric(a: Seq<u8>, b: Seq<u8>)
    requires
        lex_lt(a, b),
    ensures
        !lex_lt(b, a),
        a != b,
{
    if lex_lt(b, a) {
        lex_lt_transitive(a, b, a);
    }
    lex_lt_irreflexive(a);
}

/// Each identifier comes before all that follow it.
pub open spec fn strictly_sorted(ids: Seq<Seq<u8>>) -> bool {
    forall|i: int, j: int| 0 <= i < j < ids.len() ==> lex_lt(#[trigger] ids[i], #[trigger] ids[j])
}

/// The identifiers of `d` in rising order.
pub open spec fn canonical_ids(d: Set<Seq<u8>>) -> Seq<Seq<u8>> {
    choose|s: Seq<Seq<u8>>| strictly_sorted(s) && forall|x: Seq<u8>| s.contains(x) <==> d.contains(x)
}

/// Two rising sequences that hold the same identifiers are the same sequence.
pub proof fn lemma_sorted_unique(a: Seq<Seq<u8>>, b: Seq<Seq<u8>>)
    requires
        strictly_sorted(a),
        strictly_sorted(b),
        forall|x: Seq<u8>| a.contains(x) <==> b.contains(x),
    ensures
        a == b,
    decreases a.len(),
{
    if a.len() == 0 {
        if b.len() > 0 {
            assert(b.contains(b[0]));
        }
        assert(a =~= b);
    } else {
        assert(a.contains(a[0]));
        assert(b.contains(a[0]));
        let j = choose|j: int| 0 <= j < b.len() && b[j] == a[0];
        assert(b.contains(b[0]));
        assert(a.contains(b[0]));
        let i = choose|i: int| 0 <= i < a.len() && a[i] == b[0];
        if j > 0 {
            assert(lex_lt(b[0], b[j]));
            if i > 0 {
                assert(lex_lt(a[0], a[i]));
                lex_lt_asymmetric(a[0], a[i]);
            } else {
                lex_lt_irreflexive(a[0]);
            }
        }
        assert(a[0] == b[0]);
        let a1 = a.skip(1);
        let b1 = b.skip(1);
        assert forall|x: Seq<u8>| a1.contains(x) <==> b1.contains(x) by {
            if a1.contains(x) {
                let k = choose|k: int| 0 <= k < a1.len() && a1[k] == x;
                assert(a[k + 1] == x);
                assert(lex_lt(a[0], a[k + 1]));
                lex_lt_asymmetric(a[0], x);
                assert(a.contains(x));
                let l = choose|l: int| 0 <= l < b.len() && b[l] == x;
                assert(b1[l - 1] == x);
            }
            if b1.contains(x) {
                let k = choose|k: int| 0 <= k < b1.len() && b1[k] == x;
                assert(b[k + 1] == x);
                assert(lex_lt(b[0], b[k + 1]));
                lex_lt_asymmetric(b[0], x);
                assert(b.contains(x));
                let l = choose|l: int| 0 <= l < a.len() && a[l] == x;
                assert(a1[l - 1] == x);
            }
        }
        assert(strictly_sorted(a1)) by {
            assert forall|i: int, j: int| 0 <= i < j < a1.len() implies lex_lt(
                #[trigger] a1[i],
                #[trigger] a1[j],
            ) by {
                assert(lex_lt(a[i + 1], a[j + 1]));
            }
        }
        assert(strictly_sorted(b1)) by {
            assert forall|i: int, j: int| 0 <= i < j < b1.len() implies lex_lt(
                #[trigger] b1[i],
                #[trigger] b1[j],
            ) by {
                assert(lex_lt(b[i + 1], b[j + 1]));
            }
        }
        lemma_sorted_unique(a1, b1);
        assert(a =~= seq![a[0]] + a1);
        assert(b =~= seq![b[0]] + b1);
    }
}

/// Compares two byte strings in lexicographic order.
pub fn compare_bytes(a: &[u8], b: &[u8]) -> (r: Order)
    ensures
        r == Order::Less <==> lex_lt(a@, b@),
        r == Order::Equal <==> a@ == b@,
        r == Order::Greater <==> lex_lt(b@, a@),
{
    let mut i: usize = 0;
    while i < a.len() && i < b.len()
        invariant
            i <= a.len(),
            i <= b.len(),
            forall|j: int| 0 <= j < i ==> a@[j] == b@[j],
        decreases a.len() - i,
    {
        if a[i] < b[i] {
            proof {
                assert(differ_at(a@, b@, i as int));
                lex_lt_asymmetric(a@, b@);
            }
            return Order::Less;
        }
        if a[i] > b[i] {
            proof {
                assert(differ_at(b@, a@, i as int));
                lex_lt_asymmetric(b@, a@);
            }
            return Order::Greater;
        }
        i = i + 1;
    }
    if a.len() < b.len() {
        proof {
            assert(differ_at(a@, b@, i as int));
            lex_lt_asymmetric(a@, b@);
        }
        Order::Less
    } else if a.len() > b.len() {
        proof {
            assert(differ_at(b@, a@, i as int));
            lex_lt_asymmetric(b@, a@);
        }
        Order::Greater
    } else {
        proof {
            assert(a@ =~= b@);
            lex_lt_irreflexive(a@);
        }
        Order::Equal
    }
}

/// One entry: an identifier and what is stored under it.
pub struct Slot<V> {
    pub id: Vec<u8>,
    pub value: V,
}

/// A map from byte strings to values, held in the order of its identifiers.
pub struct ByteMap<V> {
    slots: Vec<Slot<V>>,
}

impl<V> ByteMap<V> {
    /// The identifiers, in the order in which they are held.
    pub closed spec fn ids(&self) -> Seq<Seq<u8>> {
        Seq::new(self.slots@.len(), |i: int| self.slots@[i].id@)
    }

    /// The values, in the order of their identifiers.
    pub closed spec fn values(&self) -> Seq<V> {
        Seq::new(self.slots@.len(), |i: int| self.slots@[i].value)
    }

    /// The identifiers are in strictly rising order, so none occurs twice.
    pub open spec fn wf(&self) -> bool {
        &&& self.ids().len() == self.values().len()
        &&& strictly_sorted(self.ids())
    }

    /// The map that the entries stand for.
    pub open spec fn view(&self) -> Map<Seq<u8>, V> {
        Map::new(
            |id: Seq<u8>| self.ids().contains(id),
            |id: Seq<u8>| self.values()[self.ids().index_of(id)],
        )
    }

    /// In a well-formed map the entry at place `i` is what the view holds under its identifier.
    pub proof fn lemma_view_at(&self, i: int)
        requires
            self.wf(),
            0 <= i < self.ids().len(),
        ensures
            self@.contains_key(self.ids()[i]),
            self@[self.ids()[i]] == self.values()[i],
    {
        let id = self.ids()[i];
        let j = self.ids().index_of(id);
        assert(self.ids().contains(id));
        if j < i {
            lex_lt_asymmetric(self.ids()[j], self.ids()[i]);
        } else if i < j {
            lex_lt_asymmetric(self.ids()[i], self.ids()[j]);
        }
    }

    /// An identifier that the view holds stands at the place that `index_of` gives.
    pub proof fn lemma_index_of(&self, id: Seq<u8>)
        requires
            self@.contains_key(id),
        ensures
            0 <= self.ids().index_of(id) < self.ids().len(),
            self.ids()[self.ids().index_of(id)] == id,
            self.ids().len() == self.values().len(),
    {
        assert(self.ids().contains(id));
    }

    /// The identifiers of a well-formed map are those of its view, in rising order.
    pub proof fn lemma_canonical(&self)
        requires
            self.wf(),
        ensures
            canonical_ids(self@.dom()) == self.ids(),
    {
        let d = self@.dom();
        let ids = self.ids();
        assert forall|x: Seq<u8>| ids.contains(x) <==> d.contains(x) by {
            assert(d.contains(x) <==> self@.contains_key(x));
        }
        let c = canonical_ids(d);
        lemma_sorted_unique(c, ids);
    }

    /// A map without entries.
    pub fn new() -> (r: Self)
        ensures
            r.wf(),
            r@ == Map::<Seq<u8>, V>::empty(),
            r.ids().len() == 0,
    {
        let r = ByteMap { slots: Vec::new() };
        assert(r@ =~= Map::<Seq<u8>, V>::empty());
        r
    }

    /// The number of entries.
    pub fn len(&self) -> (n: usize)
        ensures
            n == self.ids().len(),
            n == self.values().len(),
    {
        self.slots.len()
    }

    /// The identifier at place `i`.
    pub fn id_at(&self, i: usize) -> (r: &Vec<u8>)
        requires
            i < self.ids().len(),
        ensures
            r@ == self.ids()[i as int],
    {
        &self.slots[i].id
    }

    /// The value at place `i`.
    pub fn value_at(&self, i: usize) -> (r: &V)
        requires
            i < self.ids().len(),
        ensures
            *r == self.values()[i as int],
    {
        &self.slots[i].value
    }

    /// A map of its own with the same entries.
    pub fn duplicate(&self) -> (r: Self) where V: Copy
        ensures
            r.ids() == self.ids(),
            r.values() == self.values(),
            r@ == self@,
            r.wf() == self.wf(),
    {
        let mut slots: Vec<Slot<V>> = Vec::new();
        let mut i: usize = 0;
        while i < self.slots.len()
            invariant
                i <= self.slots@.len(),
                slots@.len() == i,
                forall|j: int|
                    0 <= j < i ==> (#[trigger] slots@[j]).id@ == self.slots@[j].id@ && slots@[j].value
                        == self.slots@[j].value,
            decreases self.slots@.len() - i,
        {
            let id = copy_slice(self.slots[i].id.as_slice());
            slots.push(Slot { id, value: self.slots[i].value });
            i = i + 1;
        }
        let r = ByteMap { slots };
        assert(r.ids() =~= self.ids());
        assert(r.values() =~= self.values());
        r
    }

    /// The place of the first identifier that does not come before `id`, and whether it is `id`.
    fn locate(&self, id: &[u8]) -> (r: (usize, bool))
        requires
            self.wf(),
        ensures
            r.0 <= self.ids().len(),
            forall|j: int| 0 <= j < r.0 ==> lex_lt(#[trigger] self.ids()[j], id@),
            r.1 ==> r.0 < self.ids().len() && self.ids()[r.0 as int] == id@,
            !r.1 ==> forall|j: int| r.0 <= j < self.ids().len() ==> lex_lt(id@, #[trigger] self.ids()[j]),
    {
        let mut i: usize = 0;
        while i < self.slots.len()
            invariant
                self.wf(),
                i <= self.slots@.len(),
                forall|j: int| 0 <= j < i ==> lex_lt(#[trigger] self.ids()[j], id@),
            decreases self.slots@.len() - i,
        {
            let o = compare_bytes(self.slots[i].id.as_slice(), id);
            match o {
                Order::Less => {
                    i = i + 1;
                },
                Order::Equal => {
                    assert(self.ids()[i as int] == id@);
                    return (i, true);
                },
                Order::Greater => {
                    assert(lex_lt(id@, self.ids()[i as int]));
                    assert forall|j: int| i <= j < self.ids().len() implies lex_lt(
                        id@,
                        #[trigger] self.ids()[j],
                    ) by {
                        if i < j {
                            lex_lt_transitive(id@, self.ids()[i as int], self.ids()[j]);
                        }
                    }
                    return (i, false);
                },
            }
        }
        (i, false)
    }

    /// Whether `id` is absent from a well-formed map, given where `locate` stopped.
    proof fn lemma_absent(&self, id: Seq<u8>, p: int)
        requires
            self.wf(),
            0 <= p <= self.ids().len(),
            forall|j: int| 0 <= j < p ==> lex_lt(#[trigger] self.ids()[j], id),
            forall|j: int| p <= j < self.ids().len() ==> lex_lt(id, #[trigger] self.ids()[j]),
        ensures
            !self@.contains_key(id),
    {
        if self.ids().contains(id) {
            let j = self.ids().index_of(id);
            if j < p {
                lex_lt_asymmetric(self.ids()[j], id);
            } else {
                lex_lt_asymmetric(id, self.ids()[j]);
            }
        }
    }

    /// The value stored under `id`, if there is one.
    pub fn get(&self, id: &[u8]) -> (r: Option<&V>)
        requires
            self.wf(),
        ensures
            r is Some <==> self@.contains_key(id@),
            r is Some ==> *r->0 == self@[id@],
    {
        let (p, found) = self.locate(id);
        if found {
            proof {
                self.lemma_view_at(p as int);
            }
            Some(&self.slots[p].value)
        } else {
            proof {
                self.lemma_absent(id@, p as int);
            }
            None
        }
    }

    /// Stores `value` under `id`, in place of what was stored there before.
    pub fn insert(&mut self, id: Vec<u8>, value: V)
        requires
            old(self).wf(),
        ensures
            final(self).wf(),
            final(self)@ == old(self)@.insert(id@, value),
    {
        let (p, found) = self.locate(id.as_slice());
        let ghost before = *self;
        let ghost key = id@;
        if found {
            self.slots.set(p, Slot { id, value });
            assert(self.ids() =~= before.ids());
            assert(self.values() =~= before.values().update(p as int, value));
            proof {
                assert forall|x: Seq<u8>| #[trigger] self@.contains_key(x) implies self@[x]
                    == before@.insert(key, value)[x] by {
                    let j = self.ids().index_of(x);
                    self.lemma_view_at(j);
                    before.lemma_view_at(j);
                }
                assert(self@ =~= before@.insert(key, value));
            }
        } else {
            self.slots.insert(p, Slot { id, value });
            assert(self.ids() =~= before.ids().insert(p as int, key));
            assert(self.values() =~= before.values().insert(p as int, value));
            proof {
                before.lemma_absent(key, p as int);
                assert(strictly_sorted(self.ids())) by {
                    assert forall|i: int, j: int| 0 <= i < j < self.ids().len() implies lex_lt(
                        #[trigger] self.ids()[i],
                        #[trigger] self.ids()[j],
                    ) by {
                        let oi = if i < p { i } else { i - 1 };
                        let oj = if j < p { j } else { j - 1 };
                        if i == p {
                            assert(self.ids()[j] == before.ids()[oj]);
                        } else if j == p {
                            assert(self.ids()[i] == before.ids()[oi]);
                        } else {
                            assert(self.ids()[i] == before.ids()[oi]);
                            assert(self.ids()[j] == before.ids()[oj]);
                        }
                    }
                }
                assert forall|x: Seq<u8>| before@.insert(key, value).contains_key(x) implies (
                #[trigger] self@.contains_key(x)) && self@[x] == before@.insert(key, value)[x] by {
                    if x == key {
                        assert(self.ids()[p as int] == key);
                        self.lemma_view_at(p as int);
                    } else {
                        let j = before.ids().index_of(x);
                        before.lemma_view_at(j);
                        let nj = if j < p { j } else { j + 1 };
                        assert(self.ids()[nj] == x);
                        self.lemma_view_at(nj);
                    }
                }
                assert forall|x: Seq<u8>| #[trigger] self@.contains_key(x) implies before@.insert(
                    key,
                    value,
                ).contains_key(x) by {
                    let j = self.ids().index_of(x);
                    if j != p {
                        let oj = if j < p { j } else { j - 1 };
                        assert(before.ids()[oj] == x);
                    }
                }
                assert(self@ =~= before@.insert(key, value));
            }
        }
    }
}

} // verus!
