//! The store of bounty records, the lock around it, and the listings that it
//! backs.
//!
//! The store keeps each bounty as a JSON text. A listing is handed the function
//! that reads such a text, and passes over the records that it cannot read.
//!
//! A thread that panics while it holds the lock leaves the lock poisoned. Both
//! ways of taking the lock go on with the store as that thread left it, so that
//! one panic does not fail every later request.
use std::collections::hash_map::Values;
use std::collections::HashMap;
use std::sync::{Arc, PoisonError, RwLock, RwLockReadGuard, RwLockWriteGuard};

use vstd::prelude::*;
use vstd::std_specs::hash::into_iter_values;
use vstd::std_specs::iter::IteratorSpec;

use crate::lock::{
    guarded_store, initial_store, lock_for_read, lock_for_write, new_lock, poisoned_read_guard,
    poisoned_write_guard, read_guard_lock, read_guard_store, read_guard_within, write_guard_found,
    write_guard_lock, write_guard_store, write_guard_within,
};
use crate::paging::{first_page, is_page, selected, selected_push};
use crate::timestamp::Timestamp;

verus! {

/// The records, in memory: the JSON text of each bounty under its key.
#[derive(Debug)]
pub struct DbStore {
    pub records: HashMap<String, String>,
}

impl Default for DbStore {
    fn default() -> (store: DbStore)
        ensures
            store.records@ == Map::<String, String>::empty(),
    {
        DbStore { records: HashMap::new() }
    }
}

/// A handle to the store that threads share: many may read it at a time, one may
/// write.
pub type SharedDb = Arc<RwLock<DbStore>>;

/// A bounty as a listing gives it.
#[derive(Debug, Clone)]
pub struct Bounty {
    pub id: String,
    pub creator: String,
    pub assignee: Option<String>,
    pub created_at: Timestamp,
}

/// A page of a listing, newest bounty first. `next_cursor` is what the next page
/// starts from, where this one left bounties out.
#[derive(Debug)]
pub struct BountyPage {
    pub bounties: Vec<Bounty>,
    pub next_cursor: Option<Timestamp>,
}

/// Why a listing could not be read from the database.
#[derive(Debug)]
pub struct StoreError {
    pub detail: String,
}

/// Makes a new handle, to a store without records.
pub fn new_shared_db() -> (db: SharedDb)
    ensures
        initial_store(*db).records@ == Map::<String, String>::empty(),
{
    Arc::new(new_lock(DbStore::default()))
}

/// The write guard of an attempt to lock, also where the lock was poisoned.
pub fn recover_write<'a>(
    outcome: Result<RwLockWriteGuard<'a, DbStore>, PoisonError<RwLockWriteGuard<'a, DbStore>>>,
) -> (guard: RwLockWriteGuard<'a, DbStore>)
    ensures
        guard == match outcome {
            Ok(held) => held,
            Err(error) => poisoned_write_guard(error),
        },
{
    match outcome {
        Ok(guard) => guard,
        Err(error) => write_guard_within(error),
    }
}

/// The read guard of an attempt to lock, also where the lock was poisoned.
pub fn recover_read<'a>(
    outcome: Result<RwLockReadGuard<'a, DbStore>, PoisonError<RwLockReadGuard<'a, DbStore>>>,
) -> (guard: RwLockReadGuard<'a, DbStore>)
    ensures
        guard == match outcome {
            Ok(held) => held,
            Err(error) => poisoned_read_guard(error),
        },
{
    match outcome {
        Ok(guard) => guard,
        Err(error) => read_guard_within(error),
    }
}

/// Takes the lock of `db` for writing, poisoned or not. The guard gives access to
/// the store as it was found: what a thread wrote before it panicked stays.
pub fn acquire_db(db: &SharedDb) -> (guard: RwLockWriteGuard<'_, DbStore>)
    ensures
        write_guard_lock(guard) == **db,
        write_guard_store(guard) == write_guard_found(guard),
{
    recover_write(lock_for_write(db))
}

/// Takes the lock of `db` for reading, poisoned or not.
pub fn read_db(db: &SharedDb) -> (guard: RwLockReadGuard<'_, DbStore>)
    ensures
        read_guard_lock(guard) == **db,
{
    recover_read(lock_for_read(db))
}

/// `keys` names every key of `records` once.
pub open spec fn names_each_key(records: Map<String, String>, keys: Seq<String>) -> bool {
    &&& keys.no_duplicates()
    &&& keys.to_set() == records.dom()
}

/// `raws` are the texts of `records`, that of each key once, in some order.
pub open spec fn is_walk(records: Map<String, String>, raws: Seq<String>) -> bool {
    exists|keys: Seq<String>| #[trigger]
        names_each_key(records, keys) && raws == keys.map_values(|key: String| records[key])
}

/// `read` is what `decode` can make of `raws`, text by text.
pub open spec fn reads_as<D: Fn(&String) -> Option<Bounty>>(
    decode: D,
    raws: Seq<String>,
    read: Seq<Option<Bounty>>,
) -> bool {
    &&& read.len() == raws.len()
    &&& forall|i: int|
        0 <= i < raws.len() ==> call_ensures(decode, (&raws[i],), #[trigger] read[i])
}

/// The bounties among `read`, in its order.
pub open spec fn readable(read: Seq<Option<Bounty>>) -> Seq<Bounty>
    decreases read.len(),
{
    if read.len() == 0 {
        Seq::empty()
    } else {
        match read.last() {
            Some(bounty) => readable(read.drop_last()).push(bounty),
            None => readable(read.drop_last()),
        }
    }
}

/// `read` is what `decode` makes of the texts of `records`, each once.
pub open spec fn is_reading<D: Fn(&String) -> Option<Bounty>>(
    records: Map<String, String>,
    decode: D,
    raws: Seq<String>,
    read: Seq<Option<Bounty>>,
) -> bool {
    &&& is_walk(records, raws)
    &&& reads_as(decode, raws, read)
}

/// `page` is the first page of the bounties that `decode` reads from `records`
/// and that `keep` and `cursor` let in.
pub open spec fn lists<D: Fn(&String) -> Option<Bounty>>(
    page: BountyPage,
    records: Map<String, String>,
    decode: D,
    keep: spec_fn(Bounty) -> bool,
    limit: i64,
    cursor: Option<Timestamp>,
) -> bool {
    exists|raws: Seq<String>, read: Seq<Option<Bounty>>| #[trigger]
        is_reading(records, decode, raws, read) && is_page(
            page,
            selected(readable(read), keep, cursor),
            limit,
        )
}

/// Lets in the bounties of `creator`; every bounty, where `creator` is empty.
pub open spec fn by_creator(creator: Seq<char>) -> spec_fn(Bounty) -> bool {
    |bounty: Bounty| creator.len() == 0 || bounty.creator@ == creator
}

/// Lets in the bounties that are assigned to `assignee`.
pub open spec fn by_assignee(assignee: Seq<char>) -> spec_fn(Bounty) -> bool {
    |bounty: Bounty|
        match bounty.assignee {
            Some(name) => name@ == assignee,
            None => false,
        }
}

/// std's `HashMap::values`. The contract claims that the iterator yields the
/// value of each key once and then ends; of the order in which it does, nothing.
#[verifier::external_body]
fn record_values<'a>(records: &'a HashMap<String, String>) -> (values: Values<'a, String, String>)
    ensures
        is_walk(records@, into_iter_values(values)),
        IteratorSpec::initial_value_relation(&values, &values),
        IteratorSpec::decrease(&values) is Some,
{
    records.values()
}

/// The first page of the bounties in `store` that `matches` and `cursor` let in.
fn list_bounties_where<D: Fn(&String) -> Option<Bounty>, M: Fn(&Bounty) -> bool>(
    store: &DbStore,
    limit: i64,
    cursor: Option<Timestamp>,
    decode: D,
    matches: M,
    Ghost(keep): Ghost<spec_fn(Bounty) -> bool>,
) -> (page: BountyPage)
    requires
        forall|raw: String| #[trigger] decode.requires((&raw,)),
        forall|bounty: Bounty| #[trigger] matches.requires((&bounty,)),
        forall|bounty: Bounty, let_in: bool|
            matches.ensures((&bounty,), let_in) ==> let_in == keep(bounty),
    ensures
        lists(page, store.records@, decode, keep, limit, cursor),
{
    let values = record_values(&store.records);
    let mut bounties: Vec<Bounty> = Vec::new();
    let ghost raws = into_iter_values(values);
    let ghost mut read: Seq<Option<Bounty>> = Seq::empty();
    proof {
        reveal(Seq::filter);
    }
    for raw in walk: values
        invariant
            forall|raw: String| #[trigger] decode.requires((&raw,)),
            forall|bounty: Bounty| #[trigger] matches.requires((&bounty,)),
            forall|bounty: Bounty, let_in: bool|
                matches.ensures((&bounty,), let_in) ==> let_in == keep(bounty),
            walk.seq().unref() == raws,
            read.len() == walk.index(),
            reads_as(decode, raws.take(walk.index()), read),
            bounties@ == selected(readable(read), keep, cursor),
    {
        let ghost before = read;
        let decoded = decode(raw);
        proof {
            assert(*raw == raws[walk.index()]);
            read = before.push(decoded);
            assert(read.drop_last() == before);
        }
        if let Some(bounty) = decoded {
            proof {
                selected_push(readable(before), bounty, keep, cursor);
            }
            let in_time = match cursor {
                None => true,
                Some(at) => bounty.created_at < at,
            };
            if matches(&bounty) && in_time {
                bounties.push(bounty);
            }
        }
    }
    proof {
        assert(raws.take(raws.len() as int) == raws);
        assert(is_reading(store.records@, decode, raws, read));
    }
    first_page(bounties, limit)
}

impl DbStore {
    /// The first page of the bounties in the store that `creator` made (of all of
    /// them, where `creator` is empty), from `cursor` on. `decode` reads a
    /// record; the records that it cannot read are passed over.
    pub fn bounties_by_creator<D: Fn(&String) -> Option<Bounty>>(
        &self,
        creator: &str,
        limit: i64,
        cursor: Option<Timestamp>,
        decode: D,
    ) -> (page: BountyPage)
        requires
            forall|raw: String| #[trigger] decode.requires((&raw,)),
        ensures
            lists(page, self.records@, decode, by_creator(creator@), limit, cursor),
    {
        let wanted = creator.to_owned();
        let matches = |bounty: &Bounty| -> (let_in: bool)
            ensures
                let_in == by_creator(creator@)(*bounty),
            { creator.is_empty() || bounty.creator == wanted };
        list_bounties_where(self, limit, cursor, decode, matches, Ghost(by_creator(creator@)))
    }

    /// The first page of the bounties in the store that are assigned to
    /// `assignee`, from `cursor` on. `decode` reads a record; the records that it
    /// cannot read are passed over.
    pub fn bounties_by_assignee<D: Fn(&String) -> Option<Bounty>>(
        &self,
        assignee: &str,
        limit: i64,
        cursor: Option<Timestamp>,
        decode: D,
    ) -> (page: BountyPage)
        requires
            forall|raw: String| #[trigger] decode.requires((&raw,)),
        ensures
            lists(page, self.records@, decode, by_assignee(assignee@), limit, cursor),
    {
        let wanted = assignee.to_owned();
        let matches = |bounty: &Bounty| -> (let_in: bool)
            ensures
                let_in == by_assignee(assignee@)(*bounty),
            {
                match &bounty.assignee {
                    Some(name) => *name == wanted,
                    None => false,
                }
            };
        list_bounties_where(self, limit, cursor, decode, matches, Ghost(by_assignee(assignee@)))
    }
}

/// `page` lists a store that a read guard of the lock of `db` showed.
pub open spec fn lists_shared<D: Fn(&String) -> Option<Bounty>>(
    page: BountyPage,
    db: SharedDb,
    decode: D,
    keep: spec_fn(Bounty) -> bool,
    limit: i64,
    cursor: Option<Timestamp>,
) -> bool {
    exists|guard: RwLockReadGuard<'_, DbStore>|
        #![trigger read_guard_store(guard)]
        read_guard_lock(guard) == *db && lists(
            page,
            read_guard_store(guard).records@,
            decode,
            keep,
            limit,
            cursor,
        )
}

/// Lists the bounties that `creator` made (all of them, where `creator` is
/// empty), newest first, from `cursor` on. Backs `GET /api/v1/bounties`.
///
/// What the store holds at the moment of the call is up to the threads that
/// share it; of every such store [`DbStore::bounties_by_creator`] says what is
/// listed.
pub fn list_bounties_by_creator<D: Fn(&String) -> Option<Bounty>>(
    db: &SharedDb,
    creator: &str,
    limit: i64,
    cursor: Option<Timestamp>,
    decode: D,
) -> (outcome: Result<BountyPage, StoreError>)
    requires
        forall|raw: String| #[trigger] decode.requires((&raw,)),
    ensures
        outcome matches Ok(page) && lists_shared(
            page,
            *db,
            decode,
            by_creator(creator@),
            limit,
            cursor,
        ),
{
    let guard = read_db(db);
    let store = guarded_store(&guard);
    Ok(store.bounties_by_creator(creator, limit, cursor, decode))
}

/// Lists the bounties that are assigned to `assignee`, newest first, from
/// `cursor` on. Backs `GET /api/v1/bounties/assignee/{address}`.
///
/// What the store holds at the moment of the call is up to the threads that
/// share it; of every such store [`DbStore::bounties_by_assignee`] says what is
/// listed.
pub fn list_bounties_by_assignee<D: Fn(&String) -> Option<Bounty>>(
    db: &SharedDb,
    assignee: &str,
    limit: i64,
    cursor: Option<Timestamp>,
    decode: D,
) -> (outcome: Result<BountyPage, StoreError>)
    requires
        forall|raw: String| #[trigger] decode.requires((&raw,)),
    ensures
        outcome matches Ok(page) && lists_shared(
            page,
            *db,
            decode,
            by_assignee(assignee@),
            limit,
            cursor,
        ),
{
    let guard = read_db(db);
    let store = guarded_store(&guard);
    Ok(store.bounties_by_assignee(assignee, limit, cursor, decode))
}

} // verus!
