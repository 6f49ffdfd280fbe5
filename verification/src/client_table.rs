//! Per-client request bookkeeping for at-most-once visible execution.
//!
//! The table maps a client identifier to the highest request number seen
//! from that client together with the cached result of that request, so a
//! retransmission of a completed request can be answered from the cache
//! instead of being executed a second time.

use vstd::prelude::*;

verus! {

/// What the table records for one client: the highest request number seen
/// from it and, when that request has completed, its cached result bytes.
pub struct ClientRecord {
    pub request_number: u64,
    pub result: Option<Vec<u8>>,
}

impl View for ClientRecord {
    type V = (u64, Option<Seq<u8>>);

    open spec fn view(&self) -> (u64, Option<Seq<u8>>) {
        (
            self.request_number,
            match self.result {
                Some(bytes) => Some(bytes@),
                None => None,
            },
        )
    }
}

struct TableSlot {
    client_id: String,
    record: ClientRecord,
}

/// The deduplication table: at most one record per client identifier.
pub struct ClientTable {
    slots: Vec<TableSlot>,
}

/// No client identifier occurs in two slots.
spec fn distinct_clients(slots: Seq<TableSlot>) -> bool {
    forall|i: int, j: int|
        0 <= i < j < slots.len() ==> slots[i].client_id@ != slots[j].client_id@
}

/// The mapping held by a sequence of slots; a later slot for the same
/// client shadows an earlier one.
spec fn map_of(slots: Seq<TableSlot>) -> Map<Seq<char>, (u64, Option<Seq<u8>>)>
    decreases slots.len(),
{
    if slots.len() == 0 {
        Map::empty()
    } else {
        map_of(slots.drop_last()).insert(slots.last().client_id@, slots.last().record@)
    }
}

proof fn lemma_map_of_contains(slots: Seq<TableSlot>, cid: Seq<char>)
    ensures
        map_of(slots).contains_key(cid) <==> exists|i: int|
            0 <= i < slots.len() && slots[i].client_id@ == cid,
    decreases slots.len(),
{
    if slots.len() > 0 {
        lemma_map_of_contains(slots.drop_last(), cid);
        if slots.last().client_id@ == cid {
            assert(slots[slots.len() - 1].client_id@ == cid);
        } else {
            if exists|i: int| 0 <= i < slots.len() && slots[i].client_id@ == cid {
                let i = choose|i: int| 0 <= i < slots.len() && slots[i].client_id@ == cid;
                assert(slots.drop_last()[i].client_id@ == cid);
            }
            if exists|i: int| 0 <= i < slots.drop_last().len()
                && slots.drop_last()[i].client_id@ == cid {
                let i = choose|i: int|
                    0 <= i < slots.drop_last().len() && slots.drop_last()[i].client_id@ == cid;
                assert(slots[i].client_id@ == cid);
            }
        }
    }
}

proof fn lemma_map_of_index(slots: Seq<TableSlot>, i: int)
    requires
        distinct_clients(slots),
        0 <= i < slots.len(),
    ensures
        map_of(slots).contains_key(slots[i].client_id@),
        map_of(slots)[slots[i].client_id@] == slots[i].record@,
    decreases slots.len(),
{
    if i < slots.len() - 1 {
        assert(distinct_clients(slots.drop_last())) by {
            assert forall|p: int, q: int|
                0 <= p < q < slots.drop_last().len() implies slots.drop_last()[p].client_id@
                != slots.drop_last()[q].client_id@ by {
                assert(slots[p].client_id@ != slots[q].client_id@);
            }
        }
        lemma_map_of_index(slots.drop_last(), i);
        assert(slots.drop_last()[i] == slots[i]);
        assert(slots.last().client_id@ != slots[i].client_id@);
    }
}

proof fn lemma_map_of_update(slots: Seq<TableSlot>, i: int, slot: TableSlot)
    requires
        distinct_clients(slots),
        0 <= i < slots.len(),
        slot.client_id@ == slots[i].client_id@,
    ensures
        distinct_clients(slots.update(i, slot)),
        map_of(slots.update(i, slot)) == map_of(slots).insert(slot.client_id@, slot.record@),
    decreases slots.len(),
{
    assert forall|p: int, q: int|
        0 <= p < q < slots.update(i, slot).len() implies slots.update(i, slot)[p].client_id@
        != slots.update(i, slot)[q].client_id@ by {
        assert(slots[p].client_id@ != slots[q].client_id@);
    }
    if i == slots.len() - 1 {
        assert(slots.update(i, slot).drop_last() =~= slots.drop_last());
        assert(slots.update(i, slot).last() == slot);
        assert(map_of(slots.update(i, slot))
            == map_of(slots.drop_last()).insert(slot.client_id@, slot.record@));
        assert(map_of(slots.drop_last()).insert(slot.client_id@, slot.record@)
            =~= map_of(slots).insert(slot.client_id@, slot.record@));
    } else {
        assert(distinct_clients(slots.drop_last())) by {
            assert forall|p: int, q: int|
                0 <= p < q < slots.drop_last().len() implies slots.drop_last()[p].client_id@
                != slots.drop_last()[q].client_id@ by {
                assert(slots[p].client_id@ != slots[q].client_id@);
            }
        }
        lemma_map_of_update(slots.drop_last(), i, slot);
        assert(slots.update(i, slot).drop_last() =~= slots.drop_last().update(i, slot));
        assert(slots.update(i, slot).last() == slots.last());
        assert(slots.last().client_id@ != slot.client_id@);
        assert(map_of(slots.update(i, slot))
            == map_of(slots.drop_last().update(i, slot)).insert(
            slots.last().client_id@,
            slots.last().record@,
        ));
        assert(map_of(slots.drop_last()).insert(slot.client_id@, slot.record@).insert(
            slots.last().client_id@,
            slots.last().record@,
        ) =~= map_of(slots).insert(slot.client_id@, slot.record@));
    }
}

/// Copies a byte vector; the copy's view equals the original's.
pub(crate) fn clone_bytes(bytes: &Vec<u8>) -> (r: Vec<u8>)
    ensures
        r@ == bytes@,
{
    let r = bytes.clone();
    proof {
        assert(r@ =~= bytes@);
    }
    r
}

/// Copies a record; the copy's view equals the original's.
fn clone_record(rec: &ClientRecord) -> (r: ClientRecord)
    ensures
        r@ == rec@,
{
    ClientRecord {
        request_number: rec.request_number,
        result: match &rec.result {
            Some(bytes) => Some(clone_bytes(bytes)),
            None => None,
        },
    }
}

impl View for ClientTable {
    type V = Map<Seq<char>, (u64, Option<Seq<u8>>)>;

    closed spec fn view(&self) -> Map<Seq<char>, (u64, Option<Seq<u8>>)> {
        map_of(self.slots@)
    }
}

impl ClientTable {
    /// Every client identifier occurs in at most one slot.
    pub closed spec fn wf(&self) -> bool {
        distinct_clients(self.slots@)
    }

    /// An empty table, recording nothing for any client.
    pub fn new() -> (t: ClientTable)
        ensures
            t.wf(),
            t@ == Map::<Seq<char>, (u64, Option<Seq<u8>>)>::empty(),
    {
        ClientTable { slots: Vec::new() }
    }

    /// Looks up a client and returns a copy of its record, or `None` when
    /// the client has never been recorded.
    pub fn get(&self, client_id: &String) -> (r: Option<ClientRecord>)
        requires
            self.wf(),
        ensures
            match r {
                Some(rec) => self@.contains_key(client_id@) && rec@ == self@[client_id@],
                None => !self@.contains_key(client_id@),
            },
    {
        let n = self.slots.len();
        let mut i: usize = 0;
        while i < n
            invariant
                n == self.slots@.len(),
                i <= n,
                self.wf(),
                forall|j: int| 0 <= j < i ==> self.slots@[j].client_id@ != client_id@,
            decreases n - i,
        {
            if self.slots[i].client_id == *client_id {
                let rec = clone_record(&self.slots[i].record);
                proof {
                    lemma_map_of_index(self.slots@, i as int);
                }
                return Some(rec);
            }
            i += 1;
        }
        proof {
            lemma_map_of_contains(self.slots@, client_id@);
        }
        None
    }

    /// Inserts the record for this client, replacing any earlier one.
    pub fn insert(&mut self, client_id: String, record: ClientRecord)
        requires
            old(self).wf(),
        ensures
            final(self).wf(),
            final(self)@ == old(self)@.insert(client_id@, record@),
    {
        let ghost pre_slots = self.slots@;
        let n = self.slots.len();
        let mut i: usize = 0;
        while i < n
            invariant
                n == self.slots@.len(),
                i <= n,
                self.slots@ == pre_slots,
                pre_slots == old(self).slots@,
                distinct_clients(pre_slots),
                forall|j: int| 0 <= j < i ==> self.slots@[j].client_id@ != client_id@,
            decreases n - i,
        {
            if self.slots[i].client_id == client_id {
                let slot = TableSlot { client_id, record };
                let ghost new_slot = slot;
                self.slots.set(i, slot);
                proof {
                    lemma_map_of_update(pre_slots, i as int, new_slot);
                }
                return;
            }
            i += 1;
        }
        self.slots.push(TableSlot { client_id, record });
        proof {
            assert(self.slots@.drop_last() =~= pre_slots);
            assert forall|p: int, q: int|
                0 <= p < q < self.slots@.len() implies self.slots@[p].client_id@
                != self.slots@[q].client_id@ by {
                if q < self.slots@.len() - 1 {
                    assert(pre_slots[p].client_id@ != pre_slots[q].client_id@);
                }
            }
        }
    }
}

} // verus!
