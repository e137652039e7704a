//! Resolution of a path of names, from a base key, in one published state.

use vstd::prelude::*;
use crate::byte_map::{compare_bytes, Order};
use crate::global_state::{leaf_of, GlobalState, Leaf, State};
use crate::key::Key;
use crate::stored_value::StoredValue;

verus! {

/// How a query ended.
pub enum QueryResult<'a> {
    /// The value at the end of the path.
    Success(&'a StoredValue),
    /// No value lies under the key that this name led to, or the name is not known where it
    /// was looked up. The name is empty where the base key itself holds nothing.
    ValueNotFound(String),
    /// No state is published under the root.
    RootNotFound,
    /// This name led to a key that the resolution had visited before.
    CircularReference(String),
    /// This key is a reference whose rights do not allow reading.
    InsufficientRights(Key),
}

/// How a query ends, over plain values.
pub enum QueryOutcome {
    Success(Leaf),
    ValueNotFound(Seq<char>),
    RootNotFound,
    CircularReference(Seq<char>),
    InsufficientRights(Key),
}

/// Whether a key may be read through: any key but a reference without the right to read.
pub open spec fn may_read(key: Key) -> bool {
    match key {
        Key::URef(_, rights) => rights.spec_bits() & 1 == 1,
        _ => true,
    }
}

/// Follows `path` from `key`, which the name `label` led to. `visited` holds the storage
/// identities of the keys met so far, that of `key` among them.
pub open spec fn resolve(
    state: State,
    key: Key,
    label: Seq<char>,
    path: Seq<Seq<char>>,
    visited: Seq<Seq<u8>>,
) -> QueryOutcome
    decreases path.len(),
{
    if !may_read(key) {
        QueryOutcome::InsufficientRights(key)
    } else if !state.contains_key(key.storage_id()) {
        QueryOutcome::ValueNotFound(label)
    } else {
        let value = state[key.storage_id()].value;
        if path.len() == 0 {
            QueryOutcome::Success(state[key.storage_id()])
        } else {
            let name = path[0];
            match value.known_keys() {
                None => QueryOutcome::ValueNotFound(name),
                Some(names) => if !names.contains_key(name) {
                    QueryOutcome::ValueNotFound(name)
                } else if visited.contains(names[name].storage_id()) {
                    QueryOutcome::CircularReference(name)
                } else {
                    resolve(
                        state,
                        names[name],
                        name,
                        path.skip(1),
                        visited.push(names[name].storage_id()),
                    )
                },
            }
        }
    }
}

/// How the query for `path` from `base` under `root` ends.
pub open spec fn query_outcome(
    store: Map<Seq<u8>, State>,
    root: Seq<u8>,
    base: Key,
    path: Seq<Seq<char>>,
) -> QueryOutcome {
    if !store.contains_key(root) {
        QueryOutcome::RootNotFound
    } else {
        resolve(store[root], base, Seq::<char>::empty(), path, seq![base.storage_id()])
    }
}

/// Whether the result of a query is the one that the outcome calls for.
pub open spec fn answers(r: QueryResult, o: QueryOutcome) -> bool {
    match (r, o) {
        (QueryResult::Success(v), QueryOutcome::Success(w)) => leaf_of(*v) == w && v.wf()
            && v.encodable(),
        (QueryResult::ValueNotFound(n), QueryOutcome::ValueNotFound(m)) => n@ == m,
        (QueryResult::RootNotFound, QueryOutcome::RootNotFound) => true,
        (QueryResult::CircularReference(n), QueryOutcome::CircularReference(m)) => n@ == m,
        (QueryResult::InsufficientRights(k), QueryOutcome::InsufficientRights(l)) => k == l,
        _ => false,
    }
}

/// The texts that the names of a path hold.
pub open spec fn path_view(path: Seq<String>) -> Seq<Seq<char>> {
    Seq::new(path.len(), |i: int| path[i]@)
}

/// The byte strings that a list of identities holds.
pub open spec fn ids_view(ids: Seq<Vec<u8>>) -> Seq<Seq<u8>> {
    Seq::new(ids.len(), |i: int| ids[i]@)
}

/// Whether `id` is among the identities visited.
fn was_visited(visited: &Vec<Vec<u8>>, id: &[u8]) -> (r: bool)
    ensures
        r == ids_view(visited@).contains(id@),
{
    let mut i: usize = 0;
    while i < visited.len()
        invariant
            i <= visited@.len(),
            forall|j: int| 0 <= j < i ==> ids_view(visited@)[j] != id@,
        decreases visited@.len() - i,
    {
        if compare_bytes(visited[i].as_slice(), id) == Order::Equal {
            assert(ids_view(visited@)[i as int] == id@);
            return true;
        }
        i = i + 1;
    }
    false
}

/// Whether a key may be read through.
pub fn key_is_readable(key: &Key) -> (r: bool)
    ensures
        r == may_read(*key),
{
    match key {
        Key::URef(_, rights) => rights.is_readable(),
        _ => true,
    }
}

/// Resolves `path` from `base` in the state published under `root`: reads the value under
/// the key at hand, looks the next name up among the names that this value knows, and goes
/// on from the key found there. A key visited before ends the query, and so does a
/// reference that may not be read.
pub fn query<'a>(store: &'a GlobalState, root: &[u8; 32], base: Key, path: &Vec<String>) -> (r:
    QueryResult<'a>)
    requires
        store.wf(),
    ensures
        answers(r, query_outcome(store@, root@, base, path_view(path@))),
{
    if !store.contains_root(root) {
        return QueryResult::RootNotFound;
    }
    let ghost state = store@[root@];
    let ghost names = path_view(path@);
    let mut visited: Vec<Vec<u8>> = Vec::new();
    visited.push(base.storage_bytes());
    assert(ids_view(visited@) =~= seq![base.storage_id()]);
    let mut key = base;
    let mut label = String::new();
    let mut i: usize = 0;
    assert(names.skip(0) =~= names);
    loop
        invariant
            store.wf(),
            store@.contains_key(root@),
            state == store@[root@],
            names == path_view(path@),
            i <= path@.len(),
            resolve(state, key, label@, names.skip(i as int), ids_view(visited@)) == query_outcome(
                store@,
                root@,
                base,
                names,
            ),
        decreases path@.len() - i,
    {
        if !key_is_readable(&key) {
            return QueryResult::InsufficientRights(key);
        }
        let value = match store.read(root, &key) {
            Ok(v) => v,
            Err(_) => {
                return QueryResult::ValueNotFound(label);
            },
        };
        if i >= path.len() {
            return QueryResult::Success(value);
        }
        let name = &path[i];
        assert(names.skip(i as int)[0] == name@);
        let known = match value.known_keys() {
            Some(k) => k,
            None => {
                return QueryResult::ValueNotFound(name.clone());
            },
        };
        let next = match known.get(name.as_str()) {
            Some(k) => k,
            None => {
                return QueryResult::ValueNotFound(name.clone());
            },
        };
        let id = next.storage_bytes();
        if was_visited(&visited, id.as_slice()) {
            return QueryResult::CircularReference(name.clone());
        }
        let ghost before = ids_view(visited@);
        visited.push(id);
        proof {
            assert(ids_view(visited@) =~= before.push(next.storage_id()));
            assert(names.skip(i as int).skip(1) =~= names.skip(i + 1));
        }
        key = next;
        label = name.clone();
        i = i + 1;
    }
}

/// A name that leads back to the cell it was looked up in ends the query as a circular
/// reference.
pub proof fn self_reference_is_circular(
    store: Map<Seq<u8>, State>,
    root: Seq<u8>,
    base: Key,
    path: Seq<Seq<char>>,
)
    requires
        store.contains_key(root),
        may_read(base),
        store[root].contains_key(base.storage_id()),
        path.len() > 0,
        store[root][base.storage_id()].value.known_keys() is Some,
        store[root][base.storage_id()].value.known_keys()->0.contains_key(path[0]),
        store[root][base.storage_id()].value.known_keys()->0[path[0]].storage_id()
            == base.storage_id(),
    ensures
        query_outcome(store, root, base, path) == QueryOutcome::CircularReference(path[0]),
{
    assert(seq![base.storage_id()][0] == base.storage_id());
}

/// A query from a reference that lacks the right to read fails, whatever the reference
/// points to and whatever other rights it carries.
pub proof fn unreadable_reference_fails(
    store: Map<Seq<u8>, State>,
    root: Seq<u8>,
    base: Key,
    path: Seq<Seq<char>>,
)
    requires
        store.contains_key(root),
        !may_read(base),
    ensures
        query_outcome(store, root, base, path) == QueryOutcome::InsufficientRights(base),
{
}

/// A name that leads to a reference that lacks the right to read fails the query there.
pub proof fn unreadable_step_fails(
    state: State,
    key: Key,
    label: Seq<char>,
    path: Seq<Seq<char>>,
    visited: Seq<Seq<u8>>,
)
    requires
        may_read(key),
        state.contains_key(key.storage_id()),
        path.len() > 0,
        state[key.storage_id()].value.known_keys() is Some,
        state[key.storage_id()].value.known_keys()->0.contains_key(path[0]),
        !visited.contains(state[key.storage_id()].value.known_keys()->0[path[0]].storage_id()),
        !may_read(state[key.storage_id()].value.known_keys()->0[path[0]]),
    ensures
        resolve(state, key, label, path, visited) == QueryOutcome::InsufficientRights(
            state[key.storage_id()].value.known_keys()->0[path[0]],
        ),
{
    reveal_with_fuel(resolve, 2);
}

} // verus!
