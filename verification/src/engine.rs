//! The boundary of the engine: requests and responses in plain values, around one store.

use vstd::prelude::*;
use vstd::string::*;
use crate::bytesrepr::{copy_slice, Error};
use crate::global_state::{
    commit_outcome, root_of, store_after, transforms_wf, CommitFailure, CommitResult, GlobalState,
    Leaf, MissingKeyPolicy, State, Transform,
};
use crate::key::{to_array32, Key};
use crate::protocol_version::ProtocolVersion;
use crate::query::{path_view, query, query_outcome, QueryOutcome, QueryResult};
use crate::stored_value::TypeMismatch;

verus! {

/// What the engine is configured with.
#[derive(Clone, Copy, Debug, PartialEq, Eq, Structural)]
pub struct EngineConfig {
    /// What an addition does where its key holds nothing.
    pub missing_key_policy: MissingKeyPolicy,
}

/// The answer to a query.
#[derive(Debug, PartialEq, Eq)]
pub enum QueryResponse {
    /// The serialized value.
    Success(Vec<u8>),
    /// Why there is no value.
    Failure(String),
}

/// The answer to a commit.
#[derive(Debug, PartialEq, Eq)]
pub enum CommitResponse {
    Success { poststate_hash: Vec<u8> },
    MissingPrestate(Vec<u8>),
    KeyNotFound(Key),
    TypeMismatch(TypeMismatch),
    FailedTransform(String),
}

/// The answer to a genesis run or an upgrade.
#[derive(Debug, PartialEq, Eq)]
pub enum DeployResponse {
    Success { poststate_hash: Vec<u8> },
    FailedDeploy(String),
}

/// The signal of an operation that the engine does not offer.
#[derive(Clone, Copy, Debug, PartialEq, Eq, Structural)]
pub enum Unsupported {
    Unimplemented,
}

/// The text that names an encoding error.
pub open spec fn error_text(e: Error) -> Seq<char> {
    match e {
        Error::EarlyEndOfStream => "EarlyEndOfStream"@,
        Error::FormattingError => "FormattingError"@,
        Error::LeftOverBytes => "LeftOverBytes"@,
        Error::OutOfMemoryError => "OutOfMemoryError"@,
    }
}

/// The text that names the failure of a commit.
pub open spec fn failure_text(f: CommitFailure) -> Seq<char> {
    match f {
        CommitFailure::RootNotFound => "Root not found"@,
        CommitFailure::KeyNotFound(_) => "Key not found"@,
        CommitFailure::TypeMismatch(_) => "Type mismatch"@,
        CommitFailure::Serialization(e) => error_text(e),
    }
}

/// Whether a response is the one that the outcome of a query calls for.
pub open spec fn query_reply(r: QueryResponse, o: QueryOutcome) -> bool {
    match o {
        QueryOutcome::Success(leaf) => r matches QueryResponse::Success(b) && b@ == leaf.encoding,
        QueryOutcome::ValueNotFound(n) => r matches QueryResponse::Failure(m) && m@ == n,
        QueryOutcome::RootNotFound => r matches QueryResponse::Failure(m) && m@
            == "Root not found"@,
        QueryOutcome::CircularReference(n) => r matches QueryResponse::Failure(m) && m@ == n,
        QueryOutcome::InsufficientRights(_) => r matches QueryResponse::Failure(m) && m@
            == "Insufficient access rights"@,
    }
}

/// Whether a response is the one that the outcome of a commit calls for.
pub open spec fn commit_reply(
    r: CommitResponse,
    o: Result<State, CommitFailure>,
    pre_state: Seq<u8>,
) -> bool {
    match o {
        Ok(state) => r matches CommitResponse::Success { poststate_hash } && poststate_hash@
            == root_of(state),
        Err(CommitFailure::RootNotFound) => r matches CommitResponse::MissingPrestate(h) && h@
            == pre_state,
        Err(CommitFailure::KeyNotFound(k)) => r matches CommitResponse::KeyNotFound(l) && l == k,
        Err(CommitFailure::TypeMismatch(t)) => r matches CommitResponse::TypeMismatch(u) && u
            == t,
        Err(CommitFailure::Serialization(e)) => r matches CommitResponse::FailedTransform(m)
            && m@ == error_text(e),
    }
}

/// Whether a response is the one that the outcome of a genesis run or an upgrade calls for.
pub open spec fn deploy_reply(r: DeployResponse, o: Result<State, CommitFailure>) -> bool {
    match o {
        Ok(state) => r matches DeployResponse::Success { poststate_hash } && poststate_hash@
            == root_of(state),
        Err(f) => r matches DeployResponse::FailedDeploy(m) && m@ == failure_text(f),
    }
}

/// The name of an encoding error.
pub fn error_name(e: Error) -> (r: &'static str)
    ensures
        r@ == error_text(e),
{
    match e {
        Error::EarlyEndOfStream => "EarlyEndOfStream",
        Error::FormattingError => "FormattingError",
        Error::LeftOverBytes => "LeftOverBytes",
        Error::OutOfMemoryError => "OutOfMemoryError",
    }
}

/// A state hash from the bytes of a request: exactly 32 bytes, or nothing.
pub fn parse_state_hash(bytes: &[u8]) -> (r: Option<[u8; 32]>)
    ensures
        r is Some <==> bytes@.len() == 32,
        r is Some ==> r->0@ == bytes@,
{
    if bytes.len() == 32 {
        Some(to_array32(bytes))
    } else {
        None
    }
}

/// The protocol version that a commit runs under: the requested one, but no earlier than
/// version 1.0.0.
pub fn effective_protocol_version(requested: ProtocolVersion) -> (r: ProtocolVersion)
    ensures
        r == if requested.spec_lt(ProtocolVersion { major: 1, minor: 0, patch: 0 }) {
            ProtocolVersion { major: 1, minor: 0, patch: 0 }
        } else {
            requested
        },
{
    requested.at_least(ProtocolVersion::V1_0_0())
}

/// The response that reports the result of a query: the serialized value, or the reason
/// why there is none.
pub fn query_response(result: QueryResult) -> (r: QueryResponse)
    requires
        result matches QueryResult::Success(v) ==> v.wf(),
    ensures
        match result {
            QueryResult::Success(v) => if v.encodable() {
                r matches QueryResponse::Success(b) && b@ == v.encoding()
            } else {
                r matches QueryResponse::Failure(m) && m@ == "Failed to serialize StoredValue"@
            },
            QueryResult::ValueNotFound(n) => r matches QueryResponse::Failure(m) && m@ == n@,
            QueryResult::RootNotFound => r matches QueryResponse::Failure(m) && m@
                == "Root not found"@,
            QueryResult::CircularReference(n) => r matches QueryResponse::Failure(m) && m@ == n@,
            QueryResult::InsufficientRights(_) => r matches QueryResponse::Failure(m) && m@
                == "Insufficient access rights"@,
        },
{
    match result {
        QueryResult::Success(v) => match v.to_bytes() {
            Ok(bytes) => QueryResponse::Success(bytes),
            Err(_) => QueryResponse::Failure("Failed to serialize StoredValue".to_owned()),
        },
        QueryResult::ValueNotFound(n) => QueryResponse::Failure(n),
        QueryResult::RootNotFound => QueryResponse::Failure("Root not found".to_owned()),
        QueryResult::CircularReference(n) => QueryResponse::Failure(n),
        QueryResult::InsufficientRights(_) => QueryResponse::Failure(
            "Insufficient access rights".to_owned(),
        ),
    }
}

/// The response that reports the result of a commit against `pre_state`.
pub fn commit_response(result: CommitResult, pre_state: &[u8; 32]) -> (r: CommitResponse)
    ensures
        match result {
            CommitResult::Success { state_root } => r matches CommitResponse::Success {
                poststate_hash,
            } && poststate_hash@ == state_root@,
            CommitResult::RootNotFound => r matches CommitResponse::MissingPrestate(h) && h@
                == pre_state@,
            CommitResult::KeyNotFound(k) => r matches CommitResponse::KeyNotFound(l) && l == k,
            CommitResult::TypeMismatch(t) => r matches CommitResponse::TypeMismatch(u) && u == t,
            CommitResult::Serialization(e) => r matches CommitResponse::FailedTransform(m) && m@
                == error_text(e),
        },
{
    match result {
        CommitResult::Success { state_root } => CommitResponse::Success {
            poststate_hash: copy_slice(state_root.as_slice()),
        },
        CommitResult::RootNotFound => CommitResponse::MissingPrestate(
            copy_slice(pre_state.as_slice()),
        ),
        CommitResult::KeyNotFound(k) => CommitResponse::KeyNotFound(k),
        CommitResult::TypeMismatch(t) => CommitResponse::TypeMismatch(t),
        CommitResult::Serialization(e) => CommitResponse::FailedTransform(
            error_name(e).to_owned(),
        ),
    }
}

/// The response that reports the result of a genesis run or an upgrade.
pub fn deploy_response(result: CommitResult) -> (r: DeployResponse)
    ensures
        match result {
            CommitResult::Success { state_root } => r matches DeployResponse::Success {
                poststate_hash,
            } && poststate_hash@ == state_root@,
            CommitResult::RootNotFound => r matches DeployResponse::FailedDeploy(m) && m@
                == "Root not found"@,
            CommitResult::KeyNotFound(_) => r matches DeployResponse::FailedDeploy(m) && m@
                == "Key not found"@,
            CommitResult::TypeMismatch(_) => r matches DeployResponse::FailedDeploy(m) && m@
                == "Type mismatch"@,
            CommitResult::Serialization(e) => r matches DeployResponse::FailedDeploy(m) && m@
                == error_text(e),
        },
{
    match result {
        CommitResult::Success { state_root } => DeployResponse::Success {
            poststate_hash: copy_slice(state_root.as_slice()),
        },
        CommitResult::RootNotFound => DeployResponse::FailedDeploy("Root not found".to_owned()),
        CommitResult::KeyNotFound(_) => DeployResponse::FailedDeploy("Key not found".to_owned()),
        CommitResult::TypeMismatch(_) => DeployResponse::FailedDeploy("Type mismatch".to_owned()),
        CommitResult::Serialization(e) => DeployResponse::FailedDeploy(error_name(e).to_owned()),
    }
}

/// The engine: one store and its configuration, handed to every request.
pub struct EngineState {
    state: GlobalState,
    empty_root: [u8; 32],
    config: EngineConfig,
}

impl EngineState {
    /// The published states.
    pub closed spec fn store(&self) -> Map<Seq<u8>, State> {
        self.state@
    }

    /// What an addition does where its key holds nothing.
    pub closed spec fn policy(&self) -> MissingKeyPolicy {
        self.config.missing_key_policy
    }

    /// The store is well formed and holds the empty state.
    pub closed spec fn wf(&self) -> bool {
        &&& self.state.wf()
        &&& self.empty_root@ == root_of(Map::<Seq<u8>, Leaf>::empty())
        &&& self.state@.contains_key(self.empty_root@)
        &&& self.state@[self.empty_root@] == Map::<Seq<u8>, Leaf>::empty()
    }

    /// An engine whose store holds the empty state and nothing else.
    pub fn new(config: EngineConfig) -> (r: EngineState)
        ensures
            r.wf(),
            r.policy() == config.missing_key_policy,
            r.store() == Map::<Seq<u8>, State>::empty().insert(
                root_of(Map::<Seq<u8>, Leaf>::empty()),
                Map::<Seq<u8>, Leaf>::empty(),
            ),
    {
        let (state, empty_root) = GlobalState::new();
        EngineState { state, empty_root, config }
    }

    /// The root of the empty state, from which genesis starts.
    pub fn empty_root(&self) -> (r: [u8; 32])
        requires
            self.wf(),
        ensures
            r@ == root_of(Map::<Seq<u8>, Leaf>::empty()),
            self.store().contains_key(r@),
    {
        self.empty_root
    }

    /// The store, for reads.
    pub fn global_state(&self) -> (r: &GlobalState)
        requires
            self.wf(),
        ensures
            r.wf(),
            r@ == self.store(),
    {
        &self.state
    }

    /// Answers a query for `path` from `base` in the state published under `state_hash`.
    pub fn query(&self, state_hash: &[u8], base: Key, path: &Vec<String>) -> (r: QueryResponse)
        requires
            self.wf(),
        ensures
            if state_hash@.len() == 32 {
                query_reply(r, query_outcome(self.store(), state_hash@, base, path_view(path@)))
            } else {
                r matches QueryResponse::Failure(m) && m@ == "Could not parse state hash"@
            },
    {
        let root = match parse_state_hash(state_hash) {
            Some(h) => h,
            None => {
                return QueryResponse::Failure("Could not parse state hash".to_owned());
            },
        };
        query_response(query(&self.state, &root, base, path))
    }

    /// Commits `effects` against the state published under `prestate_hash`. The commit runs
    /// under `protocol_version`, or under version 1.0.0 where that is later; the store keeps
    /// one format for all versions, so the version changes nothing in what is stored.
    pub fn commit(
        &mut self,
        prestate_hash: &[u8],
        protocol_version: ProtocolVersion,
        effects: Vec<(Key, Transform)>,
    ) -> (r: CommitResponse)
        requires
            old(self).wf(),
            transforms_wf(effects@),
        ensures
            final(self).wf(),
            final(self).policy() == old(self).policy(),
            if prestate_hash@.len() == 32 {
                &&& commit_reply(
                    r,
                    commit_outcome(old(self).store(), prestate_hash@, effects@, old(self).policy()),
                    prestate_hash@,
                )
                &&& final(self).store() == store_after(
                    old(self).store(),
                    prestate_hash@,
                    effects@,
                    old(self).policy(),
                )
            } else {
                &&& r matches CommitResponse::FailedTransform(m) && m@
                    == "Could not parse pre-state hash"@
                &&& final(self).store() == old(self).store()
            },
    {
        let _version = effective_protocol_version(protocol_version);
        let pre_state = match parse_state_hash(prestate_hash) {
            Some(h) => h,
            None => {
                return CommitResponse::FailedTransform(
                    "Could not parse pre-state hash".to_owned(),
                );
            },
        };
        let result = self.state.commit(&pre_state, effects, self.config.missing_key_policy);
        commit_response(result, &pre_state)
    }

    /// Seeds the store: commits `effects` against the empty state.
    pub fn run_genesis(&mut self, effects: Vec<(Key, Transform)>) -> (r: DeployResponse)
        requires
            old(self).wf(),
            transforms_wf(effects@),
        ensures
            final(self).wf(),
            final(self).policy() == old(self).policy(),
            deploy_reply(
                r,
                commit_outcome(
                    old(self).store(),
                    root_of(Map::<Seq<u8>, Leaf>::empty()),
                    effects@,
                    old(self).policy(),
                ),
            ),
            final(self).store() == store_after(
                old(self).store(),
                root_of(Map::<Seq<u8>, Leaf>::empty()),
                effects@,
                old(self).policy(),
            ),
    {
        let root = self.empty_root;
        let result = self.state.commit(&root, effects, self.config.missing_key_policy);
        deploy_response(result)
    }

    /// Migrates the state published under `pre_state_hash` to a later protocol version:
    /// commits `patch` against it. A version that does not come after the current one is
    /// refused.
    pub fn upgrade(
        &mut self,
        pre_state_hash: &[u8],
        current: ProtocolVersion,
        new: ProtocolVersion,
        patch: Vec<(Key, Transform)>,
    ) -> (r: DeployResponse)
        requires
            old(self).wf(),
            transforms_wf(patch@),
        ensures
            final(self).wf(),
            final(self).policy() == old(self).policy(),
            if !current.spec_lt(new) {
                &&& r matches DeployResponse::FailedDeploy(m) && m@ == "Invalid protocol version"@
                &&& final(self).store() == old(self).store()
            } else if pre_state_hash@.len() != 32 {
                &&& r matches DeployResponse::FailedDeploy(m) && m@
                    == "Could not parse pre-state hash"@
                &&& final(self).store() == old(self).store()
            } else {
                &&& deploy_reply(
                    r,
                    commit_outcome(old(self).store(), pre_state_hash@, patch@, old(self).policy()),
                )
                &&& final(self).store() == store_after(
                    old(self).store(),
                    pre_state_hash@,
                    patch@,
                    old(self).policy(),
                )
            },
    {
        if !current.lt(&new) {
            return DeployResponse::FailedDeploy("Invalid protocol version".to_owned());
        }
        let pre_state = match parse_state_hash(pre_state_hash) {
            Some(h) => h,
            None => {
                return DeployResponse::FailedDeploy("Could not parse pre-state hash".to_owned());
            },
        };
        let result = self.state.commit(&pre_state, patch, self.config.missing_key_policy);
        deploy_response(result)
    }

    /// The parent that an execution lacks: the hash of the request where no state is
    /// published under it, and nothing where the deploys can run.
    pub fn missing_parent(&self, parent_state_hash: &[u8]) -> (r: Option<Vec<u8>>)
        requires
            self.wf(),
        ensures
            r is None <==> parent_state_hash@.len() == 32 && self.store().contains_key(
                parent_state_hash@,
            ),
            r is Some ==> r->0@ == parent_state_hash@,
    {
        match parse_state_hash(parent_state_hash) {
            Some(h) => if self.state.contains_root(&h) {
                None
            } else {
                Some(copy_slice(parent_state_hash))
            },
            None => Some(copy_slice(parent_state_hash)),
        }
    }

    /// The state of the bids: not offered.
    pub fn bid_state(&self) -> (r: Result<(), Unsupported>)
        ensures
            r == Err::<(), Unsupported>(Unsupported::Unimplemented),
    {
        Err(Unsupported::Unimplemented)
    }

    /// The distribution of rewards: not offered.
    pub fn distribute_rewards(&self) -> (r: Result<(), Unsupported>)
        ensures
            r == Err::<(), Unsupported>(Unsupported::Unimplemented),
    {
        Err(Unsupported::Unimplemented)
    }

    /// Slashing: not offered.
    pub fn slash(&self) -> (r: Result<(), Unsupported>)
        ensures
            r == Err::<(), Unsupported>(Unsupported::Unimplemented),
    {
        Err(Unsupported::Unimplemented)
    }

    /// The payout after unbonding: not offered.
    pub fn unbond_payout(&self) -> (r: Result<(), Unsupported>)
        ensures
            r == Err::<(), Unsupported>(Unsupported::Unimplemented),
    {
        Err(Unsupported::Unimplemented)
    }
}

} // verus!
