//! The store of published states. A state is addressed by its root, the digest of its
//! leaves; a commit derives a new state from a published one and publishes it beside it.

use vstd::prelude::*;
use crate::byte_map::{canonical_ids, ByteMap};
use crate::bytesrepr::{append_slice, copy_slice, Error};
use crate::digest::{blake2b, digest_of};
use crate::key::Key;
use crate::stored_value::{StoredValue, StoredValueView, TypeMismatch, Value};

verus! {

/// One effect on the value under a key.
pub enum Transform {
    /// Confirms that the key holds a value and changes nothing.
    Identity,
    /// Puts a value under the key, whatever was there.
    Write(StoredValue),
    /// Adds to a signed 32-bit number, wrapping around on overflow.
    AddInt32(i32),
    /// Adds to an unsigned 64-bit number, wrapping around on overflow.
    AddUInt64(u64),
}

/// What an addition does where its key holds nothing.
#[derive(Clone, Copy, Debug, PartialEq, Eq, Structural)]
pub enum MissingKeyPolicy {
    /// The commit fails.
    Fail,
    /// The addition starts from zero.
    TreatAsZero,
}

/// Why a commit published nothing.
#[derive(Clone, Copy, Debug, PartialEq, Eq)]
pub enum CommitFailure {
    RootNotFound,
    KeyNotFound(Key),
    TypeMismatch(TypeMismatch),
    Serialization(Error),
}

/// How a commit ended.
#[derive(Clone, Copy, Debug, PartialEq, Eq)]
pub enum CommitResult {
    Success { state_root: [u8; 32] },
    RootNotFound,
    KeyNotFound(Key),
    TypeMismatch(TypeMismatch),
    Serialization(Error),
}

/// Why a read gave no value.
#[derive(Clone, Copy, Debug, PartialEq, Eq, Structural)]
pub enum ReadFailure {
    RootNotFound,
    ValueNotFound,
}

/// One leaf of a state: the value and its encoding.
pub struct Leaf {
    pub value: StoredValueView,
    pub encoding: Seq<u8>,
}

/// A state: the leaves under the storage identities of their keys.
pub type State = Map<Seq<u8>, Leaf>;

/// The leaf that stands for a value.
pub open spec fn leaf_of(v: StoredValue) -> Leaf {
    Leaf { value: v@, encoding: v.encoding() }
}

/// The identities in `ids`, each followed by the digest of the encoding of its leaf.
pub open spec fn leaf_bytes(ids: Seq<Seq<u8>>, state: State) -> Seq<u8>
    decreases ids.len(),
{
    if ids.len() == 0 {
        Seq::<u8>::empty()
    } else {
        leaf_bytes(ids.drop_last(), state) + ids.last() + blake2b(state[ids.last()].encoding)
    }
}

/// The root of a state: the digest of its leaves in the rising order of their identities.
pub open spec fn root_of(state: State) -> Seq<u8> {
    blake2b(leaf_bytes(canonical_ids(state.dom()), state))
}

/// What an addition makes of a state.
pub open spec fn add_delta(state: State, key: Key, delta: Value, policy: MissingKeyPolicy) -> Result<
    State,
    CommitFailure,
> {
    let id = key.storage_id();
    if !state.contains_key(id) {
        match policy {
            MissingKeyPolicy::Fail => Err(CommitFailure::KeyNotFound(key)),
            MissingKeyPolicy::TreatAsZero => Ok(
                state.insert(id, leaf_of(StoredValue::Value(delta))),
            ),
        }
    } else {
        match state[id].value {
            StoredValueView::Value(current) => if current.spec_type_tag()
                == delta.spec_type_tag() {
                Ok(state.insert(id, leaf_of(StoredValue::Value(current.spec_wrapping_add(delta)))))
            } else {
                Err(
                    CommitFailure::TypeMismatch(
                        TypeMismatch {
                            expected: delta.spec_type_tag(),
                            found: current.spec_type_tag(),
                        },
                    ),
                )
            },
            other => Err(
                CommitFailure::TypeMismatch(
                    TypeMismatch { expected: delta.spec_type_tag(), found: other.type_tag() },
                ),
            ),
        }
    }
}

/// What one transform makes of a state.
pub open spec fn apply_one(state: State, key: Key, t: Transform, policy: MissingKeyPolicy) -> Result<
    State,
    CommitFailure,
> {
    match t {
        Transform::Identity => if state.contains_key(key.storage_id()) {
            Ok(state)
        } else {
            Err(CommitFailure::KeyNotFound(key))
        },
        Transform::Write(v) => if v.encodable() {
            Ok(state.insert(key.storage_id(), leaf_of(v)))
        } else {
            Err(CommitFailure::Serialization(Error::OutOfMemoryError))
        },
        Transform::AddInt32(d) => add_delta(state, key, Value::Int32(d), policy),
        Transform::AddUInt64(d) => add_delta(state, key, Value::UInt64(d), policy),
    }
}

/// What a sequence of transforms makes of a state: each works on what the ones before it
/// left, and the first failure is the failure of the whole.
pub open spec fn apply_all(state: State, m: Seq<(Key, Transform)>, policy: MissingKeyPolicy) -> Result<
    State,
    CommitFailure,
>
    decreases m.len(),
{
    if m.len() == 0 {
        Ok(state)
    } else {
        match apply_one(state, m[0].0, m[0].1, policy) {
            Err(f) => Err(f),
            Ok(next) => apply_all(next, m.skip(1), policy),
        }
    }
}

/// The state that a commit derives, or why it derives none.
pub open spec fn commit_outcome(
    store: Map<Seq<u8>, State>,
    root: Seq<u8>,
    m: Seq<(Key, Transform)>,
    policy: MissingKeyPolicy,
) -> Result<State, CommitFailure> {
    if !store.contains_key(root) {
        Err(CommitFailure::RootNotFound)
    } else {
        apply_all(store[root], m, policy)
    }
}

/// The published states after a commit: on success the derived state stands under its root,
/// unless that root was published before; on failure nothing has changed.
pub open spec fn store_after(
    store: Map<Seq<u8>, State>,
    root: Seq<u8>,
    m: Seq<(Key, Transform)>,
    policy: MissingKeyPolicy,
) -> Map<Seq<u8>, State> {
    match commit_outcome(store, root, m, policy) {
        Ok(state) => if store.contains_key(root_of(state)) {
            store
        } else {
            store.insert(root_of(state), state)
        },
        Err(_) => store,
    }
}

/// Whether the result of a commit is the one that the outcome calls for.
pub open spec fn reports(r: CommitResult, outcome: Result<State, CommitFailure>) -> bool {
    match outcome {
        Ok(state) => r matches CommitResult::Success { state_root } && state_root@ == root_of(
            state,
        ),
        Err(CommitFailure::RootNotFound) => r == CommitResult::RootNotFound,
        Err(CommitFailure::KeyNotFound(k)) => r == CommitResult::KeyNotFound(k),
        Err(CommitFailure::TypeMismatch(t)) => r == CommitResult::TypeMismatch(t),
        Err(CommitFailure::Serialization(e)) => r == CommitResult::Serialization(e),
    }
}

/// Every key is valid, and so is every value to be written.
pub open spec fn transforms_wf(m: Seq<(Key, Transform)>) -> bool {
    forall|i: int|
        0 <= i < m.len() ==> (#[trigger] m[i]).0.wf() && (m[i].1 matches Transform::Write(v)
            ==> v.wf())
}

/// Where a leaf lies: its key, the place of its value, and the digest of the value.
#[derive(Clone, Copy)]
pub struct Cell {
    key: Key,
    slot: usize,
    digest: [u8; 32],
}

/// One published state: its cells under the storage identities of their keys.
pub struct Snapshot {
    cells: ByteMap<Cell>,
}

/// The store. Values lie in an arena that only grows; a state refers to the values it holds
/// and shares with the state it came from those that no transform touched.
pub struct GlobalState {
    arena: Vec<StoredValue>,
    roots: ByteMap<Snapshot>,
}

/// The state that cells stand for over an arena.
pub closed spec fn state_of(cells: Map<Seq<u8>, Cell>, arena: Seq<StoredValue>) -> State {
    Map::new(
        |id: Seq<u8>| cells.contains_key(id),
        |id: Seq<u8>|
            Leaf {
                value: arena[cells[id].slot as int]@,
                encoding: arena[cells[id].slot as int].encoding(),
            },
    )
}

/// Every cell points into the arena, at a valid value that can be serialized, and holds the
/// digest of its encoding.
pub closed spec fn cells_ok(cells: ByteMap<Cell>, arena: Seq<StoredValue>) -> bool {
    &&& cells.wf()
    &&& forall|id: Seq<u8>| #[trigger]
        cells@.contains_key(id) ==> cells@[id].slot < arena.len()
            && arena[cells@[id].slot as int].wf() && arena[cells@[id].slot as int].encodable()
            && cells@[id].digest@ == blake2b(arena[cells@[id].slot as int].encoding())
}

/// `b` holds all of `a` at the same places.
pub closed spec fn extends(a: Seq<StoredValue>, b: Seq<StoredValue>) -> bool {
    &&& a.len() <= b.len()
    &&& forall|i: int| 0 <= i < a.len() ==> a[i] == b[i]
}

/// Cells stand for the same state over a grown arena.
proof fn lemma_state_stable(cells: ByteMap<Cell>, a: Seq<StoredValue>, b: Seq<StoredValue>)
    requires
        cells_ok(cells, a),
        extends(a, b),
    ensures
        cells_ok(cells, b),
        state_of(cells@, b) == state_of(cells@, a),
{
    assert(state_of(cells@, b) =~= state_of(cells@, a));
}

/// The root of the state that cells stand for.
fn compute_root(cells: &ByteMap<Cell>, Ghost(arena): Ghost<Seq<StoredValue>>) -> (r: [u8; 32])
    requires
        cells_ok(*cells, arena),
    ensures
        r@ == root_of(state_of(cells@, arena)),
{
    let ghost state = state_of(cells@, arena);
    let ghost ids = cells.ids();
    let mut buf: Vec<u8> = Vec::new();
    let n = cells.len();
    let mut i: usize = 0;
    assert(leaf_bytes(ids.take(0), state) =~= buf@);
    while i < n
        invariant
            i <= n,
            n == ids.len(),
            ids == cells.ids(),
            cells_ok(*cells, arena),
            state == state_of(cells@, arena),
            buf@ == leaf_bytes(ids.take(i as int), state),
        decreases n - i,
    {
        let id = cells.id_at(i);
        let cell = cells.value_at(i);
        append_slice(&mut buf, id.as_slice());
        append_slice(&mut buf, cell.digest.as_slice());
        proof {
            cells.lemma_view_at(i as int);
            assert(ids.take(i + 1).drop_last() =~= ids.take(i as int));
            assert(ids.take(i + 1).last() == ids[i as int]);
        }
        i = i + 1;
    }
    proof {
        assert(ids.take(i as int) =~= ids);
        cells.lemma_canonical();
        assert(state.dom() =~= cells@.dom());
    }
    digest_of(buf.as_slice())
}

/// Puts a value into the arena and its cell into the working state.
fn stage(arena: &mut Vec<StoredValue>, working: &mut ByteMap<Cell>, key: Key, value: StoredValue) -> (r:
    Result<(), Error>)
    requires
        cells_ok(*old(working), old(arena)@),
        value.wf(),
    ensures
        cells_ok(*final(working), final(arena)@),
        extends(old(arena)@, final(arena)@),
        r is Ok <==> value.encodable(),
        r is Err ==> r->Err_0 == Error::OutOfMemoryError && state_of(
            final(working)@,
            final(arena)@,
        ) == state_of(old(working)@, old(arena)@),
        r is Ok ==> state_of(final(working)@, final(arena)@) == state_of(
            old(working)@,
            old(arena)@,
        ).insert(key.storage_id(), leaf_of(value)),
{
    let bytes = match value.to_bytes() {
        Ok(b) => b,
        Err(e) => {
            return Err(e);
        },
    };
    let digest = digest_of(bytes.as_slice());
    let id = key.storage_bytes();
    let slot = arena.len();
    let ghost before = *working;
    let ghost a = arena@;
    arena.push(value);
    proof {
        lemma_state_stable(before, a, arena@);
    }
    working.insert(id, Cell { key, slot, digest });
    assert(state_of(working@, arena@) =~= state_of(before@, a).insert(
        key.storage_id(),
        leaf_of(value),
    ));
    Ok(())
}

/// Applies an addition to the working state.
fn stage_delta(
    arena: &mut Vec<StoredValue>,
    working: &mut ByteMap<Cell>,
    key: Key,
    delta: Value,
    policy: MissingKeyPolicy,
) -> (r: Result<(), CommitFailure>)
    requires
        cells_ok(*old(working), old(arena)@),
    ensures
        cells_ok(*final(working), final(arena)@),
        extends(old(arena)@, final(arena)@),
        match add_delta(state_of(old(working)@, old(arena)@), key, delta, policy) {
            Ok(s) => r is Ok && state_of(final(working)@, final(arena)@) == s,
            Err(f) => r == Err::<(), CommitFailure>(f),
        },
{
    let id = key.storage_bytes();
    let sum = match working.get(id.as_slice()) {
        None => match policy {
            MissingKeyPolicy::Fail => {
                return Err(CommitFailure::KeyNotFound(key));
            },
            MissingKeyPolicy::TreatAsZero => delta,
        },
        Some(cell) => match &arena[cell.slot] {
            StoredValue::Value(current) => match current.wrapping_add(delta) {
                Ok(v) => v,
                Err(mismatch) => {
                    return Err(CommitFailure::TypeMismatch(mismatch));
                },
            },
            other => {
                return Err(
                    CommitFailure::TypeMismatch(
                        TypeMismatch { expected: delta.type_tag(), found: other.type_tag() },
                    ),
                );
            },
        },
    };
    match stage(arena, working, key, StoredValue::Value(sum)) {
        Ok(()) => Ok(()),
        Err(e) => Err(CommitFailure::Serialization(e)),
    }
}

/// Applies one transform to the working state.
fn stage_transform(
    arena: &mut Vec<StoredValue>,
    working: &mut ByteMap<Cell>,
    key: Key,
    t: Transform,
    policy: MissingKeyPolicy,
) -> (r: Result<(), CommitFailure>)
    requires
        cells_ok(*old(working), old(arena)@),
        t matches Transform::Write(v) ==> v.wf(),
    ensures
        cells_ok(*final(working), final(arena)@),
        extends(old(arena)@, final(arena)@),
        match apply_one(state_of(old(working)@, old(arena)@), key, t, policy) {
            Ok(s) => r is Ok && state_of(final(working)@, final(arena)@) == s,
            Err(f) => r == Err::<(), CommitFailure>(f),
        },
{
    match t {
        Transform::Identity => {
            let id = key.storage_bytes();
            match working.get(id.as_slice()) {
                Some(_) => Ok(()),
                None => Err(CommitFailure::KeyNotFound(key)),
            }
        },
        Transform::Write(v) => match stage(arena, working, key, v) {
            Ok(()) => Ok(()),
            Err(e) => Err(CommitFailure::Serialization(e)),
        },
        Transform::AddInt32(d) => stage_delta(arena, working, key, Value::Int32(d), policy),
        Transform::AddUInt64(d) => stage_delta(arena, working, key, Value::UInt64(d), policy),
    }
}

/// The same items, last first.
fn reversed(v: Vec<(Key, Transform)>) -> (r: Vec<(Key, Transform)>)
    ensures
        r@.len() == v@.len(),
        forall|j: int| 0 <= j < r@.len() ==> r@[j] == v@[v@.len() - 1 - j],
{
    let mut src = v;
    let mut out: Vec<(Key, Transform)> = Vec::new();
    while src.len() > 0
        invariant
            src@.len() + out@.len() == v@.len(),
            forall|j: int| 0 <= j < src@.len() ==> src@[j] == v@[j],
            forall|j: int| 0 <= j < out@.len() ==> out@[j] == v@[v@.len() - 1 - j],
        decreases src@.len(),
    {
        match src.pop() {
            Some(item) => {
                out.push(item);
            },
            None => {},
        }
    }
    out
}

impl View for GlobalState {
    type V = Map<Seq<u8>, State>;

    closed spec fn view(&self) -> Map<Seq<u8>, State> {
        Map::new(
            |r: Seq<u8>| self.roots@.contains_key(r),
            |r: Seq<u8>| state_of(self.roots@[r].cells@, self.arena@),
        )
    }
}

impl GlobalState {
    /// Every published state points into the arena and stands under its own root.
    pub closed spec fn wf(&self) -> bool {
        &&& self.roots.wf()
        &&& forall|r: Seq<u8>| #[trigger]
            self.roots@.contains_key(r) ==> cells_ok(self.roots@[r].cells, self.arena@) && r
                == root_of(state_of(self.roots@[r].cells@, self.arena@))
    }

    /// Every published state stands under the root of its content.
    pub proof fn lemma_content_addressed(&self, root: Seq<u8>)
        requires
            self.wf(),
            self@.contains_key(root),
        ensures
            root == root_of(self@[root]),
    {
    }

    /// A store that holds the empty state and nothing else, and the root of that state.
    pub fn new() -> (r: (GlobalState, [u8; 32]))
        ensures
            r.0.wf(),
            r.1@ == root_of(Map::<Seq<u8>, Leaf>::empty()),
            r.0@ == Map::<Seq<u8>, State>::empty().insert(r.1@, Map::<Seq<u8>, Leaf>::empty()),
    {
        let cells: ByteMap<Cell> = ByteMap::new();
        let arena: Vec<StoredValue> = Vec::new();
        let root = compute_root(&cells, Ghost(arena@));
        assert(state_of(cells@, arena@) =~= Map::<Seq<u8>, Leaf>::empty());
        let mut roots: ByteMap<Snapshot> = ByteMap::new();
        roots.insert(copy_slice(root.as_slice()), Snapshot { cells });
        let g = GlobalState { arena, roots };
        assert(g@ =~= Map::<Seq<u8>, State>::empty().insert(
            root@,
            Map::<Seq<u8>, Leaf>::empty(),
        ));
        (g, root)
    }

    /// Whether a state is published under `root`.
    pub fn contains_root(&self, root: &[u8; 32]) -> (r: bool)
        requires
            self.wf(),
        ensures
            r == self@.contains_key(root@),
    {
        self.roots.get(root.as_slice()).is_some()
    }

    /// The value under `key` in the state published under `root`.
    pub fn read(&self, root: &[u8; 32], key: &Key) -> (r: Result<&StoredValue, ReadFailure>)
        requires
            self.wf(),
        ensures
            match r {
                Ok(v) => self@.contains_key(root@) && self@[root@].contains_key(key.storage_id())
                    && leaf_of(*v) == self@[root@][key.storage_id()] && v.wf() && v.encodable(),
                Err(ReadFailure::RootNotFound) => !self@.contains_key(root@),
                Err(ReadFailure::ValueNotFound) => self@.contains_key(root@)
                    && !self@[root@].contains_key(key.storage_id()),
            },
    {
        let snapshot = match self.roots.get(root.as_slice()) {
            Some(s) => s,
            None => {
                return Err(ReadFailure::RootNotFound);
            },
        };
        let id = key.storage_bytes();
        match snapshot.cells.get(id.as_slice()) {
            Some(cell) => Ok(&self.arena[cell.slot]),
            None => Err(ReadFailure::ValueNotFound),
        }
    }

    /// Applies the transforms, in their order, to the state published under `pre_state` and
    /// publishes what they make of it. Either all of them land in the new state or the store
    /// is as it was; the state under `pre_state` stays as it is in both cases.
    #[verifier::loop_isolation(false)]
    pub fn commit(
        &mut self,
        pre_state: &[u8; 32],
        transforms: Vec<(Key, Transform)>,
        policy: MissingKeyPolicy,
    ) -> (r: CommitResult)
        requires
            old(self).wf(),
            transforms_wf(transforms@),
        ensures
            final(self).wf(),
            reports(r, commit_outcome(old(self)@, pre_state@, transforms@, policy)),
            final(self)@ == store_after(old(self)@, pre_state@, transforms@, policy),
    {
        let ghost before = *self;
        let ghost m = transforms@;
        let mut working = match self.roots.get(pre_state.as_slice()) {
            Some(s) => s.cells.duplicate(),
            None => {
                return CommitResult::RootNotFound;
            },
        };
        let ghost start = state_of(working@, self.arena@);
        assert(start == before@[pre_state@]);
        let n = transforms.len();
        let mut stack = reversed(transforms);
        let mut i: usize = 0;
        assert(m.skip(0) =~= m);
        while i < n
            invariant
                i <= n,
                n == m.len(),
                transforms_wf(m),
                before.wf(),
                before@.contains_key(pre_state@),
                start == before@[pre_state@],
                stack@.len() == n - i,
                forall|j: int| 0 <= j < stack@.len() ==> stack@[j] == m[n - 1 - j],
                self.roots == before.roots,
                extends(before.arena@, self.arena@),
                cells_ok(working, self.arena@),
                apply_all(state_of(working@, self.arena@), m.skip(i as int), policy) == apply_all(
                    start,
                    m,
                    policy,
                ),
            decreases n - i,
        {
            let (key, t) = stack.pop().unwrap();
            proof {
                assert(m.skip(i as int)[0] == m[i as int]);
                assert(m.skip(i as int).skip(1) =~= m.skip(i + 1));
            }
            match stage_transform(&mut self.arena, &mut working, key, t, policy) {
                Ok(()) => {},
                Err(f) => {
                    proof {
                        before.lemma_stable(*self);
                    }
                    return match f {
                        CommitFailure::RootNotFound => CommitResult::RootNotFound,
                        CommitFailure::KeyNotFound(k) => CommitResult::KeyNotFound(k),
                        CommitFailure::TypeMismatch(t) => CommitResult::TypeMismatch(t),
                        CommitFailure::Serialization(e) => CommitResult::Serialization(e),
                    };
                },
            }
            i = i + 1;
        }
        assert(i == n);
        let state_root = compute_root(&working, Ghost(self.arena@));
        let ghost state = state_of(working@, self.arena@);
        proof {
            before.lemma_stable(*self);
        }
        if self.roots.get(state_root.as_slice()).is_none() {
            let ghost mid = *self;
            self.roots.insert(copy_slice(state_root.as_slice()), Snapshot { cells: working });
            assert(self@ =~= mid@.insert(state_root@, state));
        }
        CommitResult::Success { state_root }
    }

    /// A store whose arena has grown holds the same states.
    proof fn lemma_stable(&self, later: GlobalState)
        requires
            self.wf(),
            later.roots == self.roots,
            extends(self.arena@, later.arena@),
        ensures
            later.wf(),
            later@ == self@,
    {
        assert forall|r: Seq<u8>| #[trigger] self.roots@.contains_key(r) implies cells_ok(
            later.roots@[r].cells,
            later.arena@,
        ) && state_of(later.roots@[r].cells@, later.arena@) == state_of(
            self.roots@[r].cells@,
            self.arena@,
        ) by {
            lemma_state_stable(self.roots@[r].cells, self.arena@, later.arena@);
        }
        assert(later@ =~= self@);
    }
}

/// The outcome of a commit, and with it the new root, depends on nothing but the state under
/// the pre-state root and the transforms: two stores that hold the same state under one root
/// give the same outcome.
pub proof fn commit_is_deterministic(
    s1: Map<Seq<u8>, State>,
    s2: Map<Seq<u8>, State>,
    root: Seq<u8>,
    m: Seq<(Key, Transform)>,
    policy: MissingKeyPolicy,
)
    requires
        s1.contains_key(root),
        s2.contains_key(root),
        s1[root] == s2[root],
    ensures
        commit_outcome(s1, root, m, policy) == commit_outcome(s2, root, m, policy),
{
}

/// A commit made a second time derives the same state as the first and leaves the store as
/// the first left it.
pub proof fn commit_twice_is_commit_once(
    store: Map<Seq<u8>, State>,
    root: Seq<u8>,
    m: Seq<(Key, Transform)>,
    policy: MissingKeyPolicy,
)
    ensures
        commit_outcome(store_after(store, root, m, policy), root, m, policy) == commit_outcome(
            store,
            root,
            m,
            policy,
        ),
        store_after(store_after(store, root, m, policy), root, m, policy) == store_after(
            store,
            root,
            m,
            policy,
        ),
{
}

/// A commit changes no published state: every root that was published before the commit
/// is published after it, with the state it had.
pub proof fn commit_keeps_published_states(
    store: Map<Seq<u8>, State>,
    root: Seq<u8>,
    m: Seq<(Key, Transform)>,
    policy: MissingKeyPolicy,
    published: Seq<u8>,
)
    requires
        store.contains_key(published),
    ensures
        store_after(store, root, m, policy).contains_key(published),
        store_after(store, root, m, policy)[published] == store[published],
{
}

/// After a successful commit the derived state stands under the new root, provided that no
/// other state was published under that root before.
pub proof fn commit_publishes_derived_state(
    store: Map<Seq<u8>, State>,
    root: Seq<u8>,
    m: Seq<(Key, Transform)>,
    policy: MissingKeyPolicy,
)
    requires
        commit_outcome(store, root, m, policy) is Ok,
        ({
            let state = commit_outcome(store, root, m, policy)->Ok_0;
            store.contains_key(root_of(state)) ==> store[root_of(state)] == state
        }),
    ensures
        ({
            let state = commit_outcome(store, root, m, policy)->Ok_0;
            let after = store_after(store, root, m, policy);
            after.contains_key(root_of(state)) && after[root_of(state)] == state
        }),
{
}

/// A commit in which any transform fails publishes nothing: the store is as it was.
pub proof fn failed_commit_changes_nothing(
    store: Map<Seq<u8>, State>,
    root: Seq<u8>,
    m: Seq<(Key, Transform)>,
    policy: MissingKeyPolicy,
)
    requires
        commit_outcome(store, root, m, policy) is Err,
    ensures
        store_after(store, root, m, policy) == store,
{
}

/// A write puts the leaf of its value under the key and leaves every other key as it was.
pub proof fn write_changes_one_key(state: State, key: Key, v: StoredValue, other: Seq<u8>)
    requires
        v.encodable(),
        other != key.storage_id(),
    ensures
        apply_one(state, key, Transform::Write(v), MissingKeyPolicy::Fail) is Ok,
        ({
            let next = apply_one(state, key, Transform::Write(v), MissingKeyPolicy::Fail)->Ok_0;
            &&& next[key.storage_id()] == leaf_of(v)
            &&& next.contains_key(other) == state.contains_key(other)
            &&& state.contains_key(other) ==> next[other] == state[other]
        }),
{
}

/// Writes to two different cells give the same state in either order, and so the same
/// root.
pub proof fn writes_to_different_cells_commute(
    state: State,
    k1: Key,
    v1: StoredValue,
    k2: Key,
    v2: StoredValue,
    policy: MissingKeyPolicy,
)
    requires
        k1.storage_id() != k2.storage_id(),
        v1.encodable(),
        v2.encodable(),
    ensures
        apply_all(state, seq![(k1, Transform::Write(v1)), (k2, Transform::Write(v2))], policy)
            == apply_all(
            state,
            seq![(k2, Transform::Write(v2)), (k1, Transform::Write(v1))],
            policy,
        ),
{
    reveal_with_fuel(apply_all, 3);
    let ab = seq![(k1, Transform::Write(v1)), (k2, Transform::Write(v2))];
    let ba = seq![(k2, Transform::Write(v2)), (k1, Transform::Write(v1))];
    assert(ab.skip(1)[0] == (k2, Transform::Write(v2)));
    assert(ba.skip(1)[0] == (k1, Transform::Write(v1)));
    let one = state.insert(k1.storage_id(), leaf_of(v1)).insert(k2.storage_id(), leaf_of(v2));
    let two = state.insert(k2.storage_id(), leaf_of(v2)).insert(k1.storage_id(), leaf_of(v1));
    assert(one =~= two);
    assert(apply_all(state, ab, policy) == Ok::<State, CommitFailure>(one));
    assert(apply_all(state, ba, policy) == Ok::<State, CommitFailure>(two));
}

/// Adding `a` and then `b` under one key gives what adding their wrapped sum gives, and
/// fails where that fails.
pub proof fn add_then_add_is_add_of_sum(
    state: State,
    key: Key,
    a: Value,
    b: Value,
    policy: MissingKeyPolicy,
)
    requires
        a.spec_type_tag() == b.spec_type_tag(),
    ensures
        match add_delta(state, key, a, policy) {
            Ok(mid) => add_delta(mid, key, b, policy) == add_delta(
                state,
                key,
                a.spec_wrapping_add(b),
                policy,
            ),
            Err(f) => add_delta(state, key, a.spec_wrapping_add(b), policy) == Err::<
                State,
                CommitFailure,
            >(f),
        },
{
    let id = key.storage_id();
    let sum = a.spec_wrapping_add(b);
    match add_delta(state, key, a, policy) {
        Ok(mid) => {
            let two = add_delta(mid, key, b, policy);
            let one = add_delta(state, key, sum, policy);
            assert(mid.contains_key(id));
            if state.contains_key(id) {
                let current = state[id].value->Value_0;
                crate::stored_value::wrapping_add_combines(current, a, b);
            }
            assert(two is Ok && one is Ok);
            assert(two->Ok_0 =~= one->Ok_0);
        },
        Err(f) => {},
    }
}

/// Two additions to one key in one commit give what one addition of their wrapped sum gives.
pub proof fn add_int32_twice(state: State, key: Key, a: i32, b: i32, policy: MissingKeyPolicy)
    ensures
        apply_all(
            state,
            seq![(key, Transform::AddInt32(a)), (key, Transform::AddInt32(b))],
            policy,
        ) == apply_all(
            state,
            seq![(key, Transform::AddInt32(vstd::wrapping::i32_specs::wrapping_add(a, b)))],
            policy,
        ),
{
    reveal_with_fuel(apply_all, 3);
    let two = seq![(key, Transform::AddInt32(a)), (key, Transform::AddInt32(b))];
    assert(two.skip(1)[0] == (key, Transform::AddInt32(b)));
    add_then_add_is_add_of_sum(state, key, Value::Int32(a), Value::Int32(b), policy);
}

/// Two additions to one key in one commit give what one addition of their wrapped sum gives.
pub proof fn add_uint64_twice(state: State, key: Key, a: u64, b: u64, policy: MissingKeyPolicy)
    ensures
        apply_all(
            state,
            seq![(key, Transform::AddUInt64(a)), (key, Transform::AddUInt64(b))],
            policy,
        ) == apply_all(
            state,
            seq![(key, Transform::AddUInt64(vstd::wrapping::u64_specs::wrapping_add(a, b)))],
            policy,
        ),
{
    reveal_with_fuel(apply_all, 3);
    let two = seq![(key, Transform::AddUInt64(a)), (key, Transform::AddUInt64(b))];
    assert(two.skip(1)[0] == (key, Transform::AddUInt64(b)));
    add_then_add_is_add_of_sum(state, key, Value::UInt64(a), Value::UInt64(b), policy);
}

} // verus!
