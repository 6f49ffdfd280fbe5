//! One replica's state record and its request-admission logic.
//!
//! A replica decides from its view number alone whether it is the current
//! primary (`view_number mod group size` selects the primary's index),
//! admits fresh client requests by assigning them strictly increasing
//! operation numbers and appending them to the log, answers repeats of a
//! client's last completed request from the client table, and refuses
//! stale or out-of-order retransmissions.

use vstd::prelude::*;

use crate::client_table::{clone_bytes, ClientRecord, ClientTable};

verus! {

/// Lifecycle phase of a replica. Only `Normal` admits client requests;
/// the other phases belong to the surrounding view-change and recovery
/// protocols, which are outside this library.
#[derive(Debug, Clone, Copy, PartialEq, Eq, Structural)]
pub enum Status {
    Normal,
    ViewChange,
    Recovering,
    Transitioning,
}

/// Why a request was refused.
#[derive(Debug, Clone, Copy, PartialEq, Eq, Structural)]
pub enum ReplicaError {
    /// Reserved for view validation by the surrounding protocol layers;
    /// never raised by this library.
    InvalidViewNumber { expected: u64, actual: u64 },
    /// This replica is not the primary for its current view.
    NotPrimary(u64),
    /// The client's request number is stale or out of order.
    OpNumberMismatch { expected: u64, actual: u64 },
}

/// One record of an admitted client operation and its outcome, immutable
/// once appended to the log.
#[derive(Debug)]
pub struct LogEntry {
    pub client_id: String,
    pub request_number: u64,
    pub operation: Vec<u8>,
    pub result: Option<Vec<u8>>,
}

/// The fixed opaque success marker standing in for real execution of an
/// operation: the ASCII bytes of "EXECUTED".
pub open spec fn executed_marker() -> Seq<u8> {
    seq![69u8, 88u8, 69u8, 67u8, 85u8, 84u8, 69u8, 68u8]
}

/// Builds the marker bytes.
fn executed_result() -> (r: Vec<u8>)
    ensures
        r@ == executed_marker(),
{
    let mut r: Vec<u8> = Vec::new();
    r.push(69);
    r.push(88);
    r.push(69);
    r.push(67);
    r.push(85);
    r.push(84);
    r.push(69);
    r.push(68);
    proof {
        assert(r@ =~= executed_marker());
    }
    r
}

/// The local state of one member of the replica group.
pub struct Replica {
    /// Network addresses of the whole group, in the order shared by every
    /// member; fixed for the lifetime of the process.
    pub configuration: Vec<String>,
    /// Index of this replica in the configuration.
    pub replica_number: usize,
    /// Current view number; advanced only by the out-of-scope view-change
    /// protocol.
    pub view_number: u64,
    /// Current lifecycle phase.
    pub status: Status,
    /// Operation number assigned to the most recently admitted request.
    pub op_number: u64,
    /// Admitted operations in their assigned order; position `i` carries
    /// operation number `i + 1`.
    pub log: Vec<LogEntry>,
    /// Operation number of the most recently committed operation; advanced
    /// only by the out-of-scope quorum protocol.
    pub commit_number: u64,
    /// Highest request number seen from each client, with its cached result.
    pub client_table: ClientTable,
}

impl Replica {
    /// The index of the current view's primary within the configuration.
    pub open spec fn spec_primary_index(self) -> int {
        (self.view_number as int) % (self.configuration@.len() as int)
    }

    /// Whether this replica is the current view's primary.
    pub open spec fn spec_is_primary(self) -> bool {
        self.spec_primary_index() == self.replica_number as int
    }

    /// Well-formedness of a replica's state.
    ///
    /// The configuration is non-empty and contains this replica; the
    /// operation number always equals the log's length and bounds the
    /// commit number; the client table is keyed uniquely, every recorded
    /// request number leaves room for a successor, the table covers every
    /// logged request of a client at or below the recorded number, and one
    /// client's logged request numbers strictly increase with position.
    pub open spec fn wf(self) -> bool {
        &&& self.configuration@.len() > 0
        &&& (self.replica_number as int) < self.configuration@.len()
        &&& self.op_number as int == self.log@.len()
        &&& self.commit_number <= self.op_number
        &&& self.client_table.wf()
        &&& forall|c: Seq<char>| #[trigger]
            self.client_table@.contains_key(c) ==> self.client_table@[c].0 < u64::MAX
        &&& forall|i: int|
            #![trigger self.log@[i]]
            0 <= i < self.log@.len() ==> {
                &&& self.client_table@.contains_key(self.log@[i].client_id@)
                &&& self.log@[i].request_number <= self.client_table@[self.log@[i].client_id@].0
            }
        &&& forall|i: int, j: int|
            #![trigger self.log@[i], self.log@[j]]
            0 <= i < j < self.log@.len() && self.log@[i].client_id@ == self.log@[j].client_id@
                ==> self.log@[i].request_number < self.log@[j].request_number
    }

    /// The table already records exactly this request as completed, so a
    /// repeat of it is answered from the cache.
    pub open spec fn is_cached_duplicate(self, cid: Seq<char>, n: u64) -> bool {
        &&& self.client_table@.contains_key(cid)
        &&& self.client_table@[cid].0 == n
        &&& self.client_table@[cid].1 is Some
    }

    /// The table already records a request number at or above this one.
    pub open spec fn is_stale(self, cid: Seq<char>, n: u64) -> bool {
        &&& self.client_table@.contains_key(cid)
        &&& self.client_table@[cid].0 >= n
    }

    /// The request is genuinely new for this client.
    pub open spec fn is_fresh(self, cid: Seq<char>, n: u64) -> bool {
        !self.client_table@.contains_key(cid) || self.client_table@[cid].0 < n
    }

    /// How a successful admission changes the state: the operation number
    /// advances by one, the request is appended to the log with the marker
    /// result, the client's table record is overwritten, and everything
    /// else is unchanged.
    pub open spec fn admitted(self, post: Replica, cid: Seq<char>, n: u64, op: Seq<u8>) -> bool {
        &&& post.configuration == self.configuration
        &&& post.replica_number == self.replica_number
        &&& post.view_number == self.view_number
        &&& post.status == self.status
        &&& post.commit_number == self.commit_number
        &&& post.op_number == self.op_number + 1
        &&& post.log@ == self.log@.push(post.log@.last())
        &&& post.log@.last().client_id@ == cid
        &&& post.log@.last().request_number == n
        &&& post.log@.last().operation@ == op
        &&& (post.log@.last().result matches Some(bytes) && bytes@ == executed_marker())
        &&& post.client_table@ == self.client_table@.insert(cid, (n, Some(executed_marker())))
    }

    /// Creates a replica in view 0, in the `Normal` phase, with an empty
    /// log and an empty client table.
    pub fn new(configuration: Vec<String>, replica_number: usize) -> (r: Replica)
        requires
            configuration@.len() > 0,
            replica_number < configuration@.len(),
        ensures
            r.wf(),
            r.configuration == configuration,
            r.replica_number == replica_number,
            r.view_number == 0,
            r.status == Status::Normal,
            r.op_number == 0,
            r.log@ == Seq::<LogEntry>::empty(),
            r.commit_number == 0,
            r.client_table@ == Map::<Seq<char>, (u64, Option<Seq<u8>>)>::empty(),
    {
        Replica {
            configuration,
            replica_number,
            view_number: 0,
            status: Status::Normal,
            op_number: 0,
            log: Vec::new(),
            commit_number: 0,
            client_table: ClientTable::new(),
        }
    }

    /// True iff this replica is the current view's primary: the view
    /// number modulo the group size selects this replica's own index.
    pub fn is_primary(&self) -> (r: bool)
        requires
            self.configuration@.len() > 0,
        ensures
            r == self.spec_is_primary(),
    {
        let group_size = self.configuration.len();
        let primary_idx = (self.view_number % (group_size as u64)) as usize;
        primary_idx == self.replica_number
    }

    /// The address of the current view's primary.
    pub fn get_primary_address(&self) -> (r: &str)
        requires
            self.configuration@.len() > 0,
        ensures
            r@ == self.configuration@[self.spec_primary_index()]@,
    {
        let group_size = self.configuration.len();
        let primary_idx = (self.view_number % (group_size as u64)) as usize;
        self.configuration[primary_idx].as_str()
    }

    /// Admits, deduplicates, or refuses one client request.
    ///
    /// Only the current view's primary may admit; a backup refuses every
    /// request with `NotPrimary` and changes nothing. On the primary, a
    /// repeat of the client's last completed request is answered from the
    /// cache without touching the state; a request at or below the last
    /// recorded number is refused with `OpNumberMismatch`; a fresh request
    /// is assigned the next operation number, appended to the log, and
    /// recorded in the client table.
    ///
    /// Admission is legal only in the `Normal` phase; the surrounding
    /// protocol layers must not ask a replica mid-view-change or
    /// mid-recovery to admit requests.
    pub fn process_request(
        &mut self,
        client_id: String,
        request_number: u64,
        operation: Vec<u8>,
    ) -> (r: Result<Vec<u8>, ReplicaError>)
        requires
            old(self).wf(),
            old(self).status == Status::Normal,
            old(self).op_number < u64::MAX,
            request_number < u64::MAX,
        ensures
            final(self).wf(),
            final(self).configuration == old(self).configuration,
            final(self).replica_number == old(self).replica_number,
            final(self).view_number == old(self).view_number,
            final(self).status == old(self).status,
            final(self).commit_number == old(self).commit_number,
            !old(self).spec_is_primary() ==> *final(self) == *old(self),
            !old(self).spec_is_primary() ==> r == Err::<Vec<u8>, ReplicaError>(
                ReplicaError::NotPrimary(old(self).view_number),
            ),
            old(self).spec_is_primary() && old(self).is_cached_duplicate(
                client_id@,
                request_number,
            ) ==> *final(self) == *old(self),
            old(self).spec_is_primary() && old(self).is_cached_duplicate(
                client_id@,
                request_number,
            ) ==> (r matches Ok(bytes) && bytes@ == old(self).client_table@[client_id@].1->0),
            old(self).spec_is_primary() && !old(self).is_cached_duplicate(
                client_id@,
                request_number,
            ) && old(self).is_stale(client_id@, request_number) ==> *final(self) == *old(self),
            old(self).spec_is_primary() && !old(self).is_cached_duplicate(
                client_id@,
                request_number,
            ) && old(self).is_stale(client_id@, request_number) ==> r == Err::<Vec<u8>,
                ReplicaError,
            >(
                ReplicaError::OpNumberMismatch {
                    expected: (old(self).client_table@[client_id@].0 + 1) as u64,
                    actual: request_number,
                },
            ),
            old(self).spec_is_primary() && old(self).is_fresh(client_id@, request_number)
                ==> old(self).admitted(*final(self), client_id@, request_number, operation@),
            old(self).spec_is_primary() && old(self).is_fresh(client_id@, request_number) ==> (
            r matches Ok(bytes) && bytes@ == executed_marker()),
            r is Ok <==> old(self).spec_is_primary() && (old(self).is_cached_duplicate(
                client_id@,
                request_number,
            ) || old(self).is_fresh(client_id@, request_number)),
    {
        if !self.is_primary() {
            return Err(ReplicaError::NotPrimary(self.view_number));
        }
        match self.client_table.get(&client_id) {
            Some(ClientRecord { request_number: last_request, result: last_result }) => {
                if last_request == request_number && last_result.is_some() {
                    // Already executed: answer from the cache without
                    // touching the state.
                    return Ok(last_result.unwrap());
                }
                if last_request >= request_number {
                    // Stale or out-of-order retransmission.
                    return Err(ReplicaError::OpNumberMismatch {
                        expected: last_request + 1,
                        actual: request_number,
                    });
                }
            },
            None => {},
        }
        self.op_number = self.op_number + 1;
        let op_result = executed_result();
        let log_result = clone_bytes(&op_result);
        let table_result = clone_bytes(&op_result);
        self.log.push(
            LogEntry {
                client_id: client_id.clone(),
                request_number,
                operation,
                result: Some(log_result),
            },
        );
        self.client_table.insert(
            client_id,
            ClientRecord { request_number, result: Some(table_result) },
        );
        proof {
            let pre = *old(self);
            let post = *self;
            let cid = client_id@;
            let n = request_number;
            assert(pre.is_fresh(cid, n));
            assert forall|c: Seq<char>| #[trigger]
                post.client_table@.contains_key(c) implies post.client_table@[c].0
                < u64::MAX by {
                if c != cid {
                    assert(pre.client_table@.contains_key(c));
                }
            }
            assert forall|i: int|
                #![trigger post.log@[i]]
                0 <= i < post.log@.len() implies {
                &&& post.client_table@.contains_key(post.log@[i].client_id@)
                &&& post.log@[i].request_number
                    <= post.client_table@[post.log@[i].client_id@].0
            } by {
                if i < pre.log@.len() {
                    assert(post.log@[i] == pre.log@[i]);
                    assert(pre.client_table@.contains_key(pre.log@[i].client_id@));
                    if pre.log@[i].client_id@ == cid {
                        assert(pre.client_table@[cid].0 < n);
                    }
                }
            }
            assert forall|i: int, j: int|
                #![trigger post.log@[i], post.log@[j]]
                0 <= i < j < post.log@.len() && post.log@[i].client_id@
                    == post.log@[j].client_id@ implies post.log@[i].request_number
                < post.log@[j].request_number by {
                if j < pre.log@.len() {
                    assert(post.log@[i] == pre.log@[i]);
                    assert(post.log@[j] == pre.log@[j]);
                } else {
                    assert(post.log@[i] == pre.log@[i]);
                    assert(pre.client_table@.contains_key(pre.log@[i].client_id@));
                    assert(pre.log@[i].request_number <= pre.client_table@[cid].0);
                    assert(pre.client_table@[cid].0 < n);
                }
            }
        }
        Ok(op_result)
    }
}

/// Law: the primary index determined by a view always lies inside the
/// configuration, and a replica is primary exactly when its own index
/// equals it.
pub proof fn lemma_primary_index_in_range(r: Replica)
    requires
        r.wf(),
    ensures
        0 <= r.spec_primary_index() < r.configuration@.len(),
        r.spec_is_primary() <==> r.replica_number as int == r.spec_primary_index(),
{
    vstd::arithmetic::div_mod::lemma_mod_bound(
        r.view_number as int,
        r.configuration@.len() as int,
    );
}

/// Law: for one configuration and one view, at most one replica number is
/// primary; with the range lemma above, exactly one index in the
/// configuration satisfies it.
pub proof fn lemma_exactly_one_primary(a: Replica, b: Replica)
    requires
        a.wf(),
        b.wf(),
        a.configuration@ == b.configuration@,
        a.view_number == b.view_number,
        a.spec_is_primary(),
        b.spec_is_primary(),
    ensures
        a.replica_number == b.replica_number,
{
}

/// Law (idempotence): a fresh admission of `(cid, n)` leaves the state
/// recording that exact pair as a completed duplicate whose cached result
/// is the marker — so by the admission contract, repeating the call
/// returns byte-identical results and changes nothing.
pub proof fn lemma_admission_idempotent(
    pre: Replica,
    post: Replica,
    cid: Seq<char>,
    n: u64,
    op: Seq<u8>,
)
    requires
        pre.admitted(post, cid, n, op),
    ensures
        post.is_cached_duplicate(cid, n),
        post.client_table@[cid].1 == Some(executed_marker()),
        post.client_table@[cid].1->0 == executed_marker(),
{
}

/// Law (monotonic numbering): an admission advances the operation number
/// by one and keeps it equal to the log's length, so after `k` distinct
/// admissions from a fresh replica both are `k`.
pub proof fn lemma_admission_advances_numbering(
    pre: Replica,
    post: Replica,
    cid: Seq<char>,
    n: u64,
    op: Seq<u8>,
)
    requires
        pre.wf(),
        pre.admitted(post, cid, n, op),
    ensures
        post.op_number == pre.op_number + 1,
        post.log@.len() == pre.log@.len() + 1,
        post.op_number as int == post.log@.len(),
{
}

/// Law (per-client monotonicity): within a well-formed replica's log, the
/// request numbers of one client's entries strictly increase with their
/// position, hence with their assigned operation numbers.
pub proof fn lemma_log_requests_monotonic(r: Replica, i: int, j: int)
    requires
        r.wf(),
        0 <= i < j < r.log@.len(),
        r.log@[i].client_id@ == r.log@[j].client_id@,
    ensures
        r.log@[i].request_number < r.log@[j].request_number,
{
}

} // verus!
