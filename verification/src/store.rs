use vstd::prelude::*;

verus! {

/// One persisted subscriber row, at the level the persistence contract
/// speaks of: the identifier, the two text columns, and the timestamp
/// column.
pub struct SubscriberRecord {
    pub id: u128,
    pub email: Seq<char>,
    pub name: Seq<char>,
    pub subscribed_at_micros: i64,
}

/// What one successful insert does to the relation: the new row is appended
/// and every existing row is kept.  No uniqueness check on (email, name) is
/// performed; only `id` is a key.
pub open spec fn insert_record(
    store: Seq<SubscriberRecord>,
    r: SubscriberRecord,
) -> Seq<SubscriberRecord> {
    store.push(r)
}

/// A batch of independent inserts, applied in some serialization order.
pub open spec fn insert_all(
    store: Seq<SubscriberRecord>,
    batch: Seq<SubscriberRecord>,
) -> Seq<SubscriberRecord>
    decreases batch.len(),
{
    if batch.len() == 0 {
        store
    } else {
        insert_record(insert_all(store, batch.drop_last()), batch.last())
    }
}

/// The relation's invariant: `id` is unique across all rows.
pub open spec fn ids_unique(store: Seq<SubscriberRecord>) -> bool {
    forall|i: int, j: int| 0 <= i < j < store.len() ==> store[i].id != store[j].id
}

/// How many rows carry the given (email, name) pair.
pub open spec fn count_matching(store: Seq<SubscriberRecord>, email: Seq<char>, name: Seq<char>) -> nat
    decreases store.len(),
{
    if store.len() == 0 {
        0
    } else {
        count_matching(store.drop_last(), email, name) + if store.last().email == email
            && store.last().name == name {
            1nat
        } else {
            0nat
        }
    }
}

/// Law: an insert loses no row and rewrites none — the new row lands at the
/// end, every prior row keeps its place, and the number of rows matching any
/// (email, name) pair grows exactly by the new row's contribution.
pub proof fn lemma_insert_effect(
    store: Seq<SubscriberRecord>,
    r: SubscriberRecord,
    email: Seq<char>,
    name: Seq<char>,
)
    ensures
        insert_record(store, r).len() == store.len() + 1,
        insert_record(store, r)[store.len() as int] == r,
        forall|k: int| 0 <= k < store.len() ==> insert_record(store, r)[k] == store[k],
        count_matching(insert_record(store, r), email, name) == count_matching(
            store,
            email,
            name,
        ) + (if r.email == email && r.name == name {
            1nat
        } else {
            0nat
        }),
{
    assert(insert_record(store, r).drop_last() =~= store);
}

/// Law: submissions are not deduplicated.  Inserting two rows with the same
/// (email, name) pair but distinct fresh identifiers leaves both rows in the
/// relation, keeps identifiers unique, and raises the pair's row count by
/// exactly two.
pub proof fn lemma_duplicate_pair_kept(
    store: Seq<SubscriberRecord>,
    r1: SubscriberRecord,
    r2: SubscriberRecord,
)
    requires
        ids_unique(store),
        r1.id != r2.id,
        forall|k: int| 0 <= k < store.len() ==> store[k].id != r1.id && store[k].id != r2.id,
        r1.email == r2.email,
        r1.name == r2.name,
    ensures
        ({
            let s2 = insert_record(insert_record(store, r1), r2);
            &&& s2.len() == store.len() + 2
            &&& s2[store.len() as int] == r1
            &&& s2[store.len() as int + 1] == r2
            &&& ids_unique(s2)
            &&& count_matching(s2, r1.email, r1.name) == count_matching(store, r1.email, r1.name)
                + 2
        }),
{
    let s1 = insert_record(store, r1);
    let s2 = insert_record(s1, r2);
    lemma_insert_effect(store, r1, r1.email, r1.name);
    lemma_insert_effect(s1, r2, r1.email, r1.name);
    assert forall|i: int, j: int| 0 <= i < j < s2.len() implies s2[i].id != s2[j].id by {
        if j < store.len() {
            assert(s2[i] == store[i] && s2[j] == store[j]);
        } else if j == store.len() {
            assert(s2[i] == store[i] && s2[j] == r1);
        } else {
            assert(s2[j] == r2);
            if i < store.len() {
                assert(s2[i] == store[i]);
            } else if i == store.len() {
                assert(s2[i] == r1);
            }
        }
    }
}

proof fn lemma_insert_all_is_concat(store: Seq<SubscriberRecord>, batch: Seq<SubscriberRecord>)
    ensures
        insert_all(store, batch) == store + batch,
    decreases batch.len(),
{
    if batch.len() == 0 {
        assert(insert_all(store, batch) =~= store + batch);
    } else {
        lemma_insert_all_is_concat(store, batch.drop_last());
        assert((store + batch.drop_last()).push(batch.last()) =~= store + batch);
    }
}

/// Law: N concurrent submissions, serialized in any order as a batch of
/// independent inserts with pairwise-distinct fresh identifiers, persist as
/// exactly N new rows — none lost, none duplicated — and identifier
/// uniqueness is preserved.
pub proof fn lemma_batch_insert(store: Seq<SubscriberRecord>, batch: Seq<SubscriberRecord>)
    requires
        ids_unique(store),
        ids_unique(batch),
        forall|i: int, j: int|
            0 <= i < store.len() && 0 <= j < batch.len() ==> store[i].id != batch[j].id,
    ensures
        insert_all(store, batch) == store + batch,
        insert_all(store, batch).len() == store.len() + batch.len(),
        ids_unique(insert_all(store, batch)),
{
    lemma_insert_all_is_concat(store, batch);
    let s2 = store + batch;
    assert forall|i: int, j: int| 0 <= i < j < s2.len() implies s2[i].id != s2[j].id by {
        if j < store.len() {
            assert(s2[i] == store[i] && s2[j] == store[j]);
        } else if i < store.len() {
            assert(s2[i] == store[i] && s2[j] == batch[j - store.len()]);
        } else {
            assert(s2[i] == batch[i - store.len()] && s2[j] == batch[j - store.len()]);
        }
    }
}

} // verus!
