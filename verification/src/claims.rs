//! Claims of bounties: who claims a bounty becomes its assignee in the store.
//!
//! The library writes no JSON itself: a claim is handed the function that reads a
//! record and the one that rewrites it.
use std::collections::hash_map;
use std::collections::HashMap;
use std::sync::RwLockWriteGuard;

use vstd::prelude::*;
use vstd::std_specs::hash::into_iter;
use vstd::std_specs::iter::IteratorSpec;

use crate::db::{acquire_db, by_assignee, lists, Bounty, BountyPage, DbStore, SharedDb};
use crate::listing_laws::recorded_bounty_is_listed;
use crate::lock::{guarded_store_mut, write_guard_found, write_guard_lock, write_guard_store};
use crate::paging::admits;
use crate::timestamp::Timestamp;

verus! {

/// `claimed` is `bounty` with `caller` for its assignee.
pub open spec fn is_claimed_by(claimed: Bounty, bounty: Bounty, caller: Seq<char>) -> bool {
    &&& claimed.id == bounty.id
    &&& claimed.creator == bounty.creator
    &&& claimed.created_at == bounty.created_at
    &&& claimed.assignee matches Some(name) && name@ == caller
}

/// `after` is what `rewrite` can make of the record `before` to hold `bounty`,
/// claimed by `caller`.
pub open spec fn records_claim<E: Fn(&String, &Bounty) -> String>(
    before: String,
    after: String,
    bounty: Bounty,
    rewrite: E,
    caller: Seq<char>,
) -> bool {
    exists|claimed: Bounty| #[trigger]
        is_claimed_by(claimed, bounty, caller) && call_ensures(
            rewrite,
            (&before, &claimed),
            after,
        )
}

/// `after` is what a claim of the bounty `id` by `caller` makes of the record
/// `before`: the bounty with its new assignee, where the record reads as that
/// bounty, else the record as it was.
pub open spec fn claims_record<D: Fn(&String) -> Option<Bounty>, E: Fn(&String, &Bounty) -> String>(
    before: String,
    after: String,
    decode: D,
    rewrite: E,
    id: Seq<char>,
    caller: Seq<char>,
) -> bool {
    exists|read: Option<Bounty>| #[trigger]
        call_ensures(decode, (&before,), read) && match read {
            Some(bounty) => if bounty.id@ == id {
                records_claim(before, after, bounty, rewrite, caller)
            } else {
                after == before
            },
            None => after == before,
        }
}

/// `after` is what a claim of the bounty `id` by `caller` makes of the records
/// `before`, key by key. No key comes or goes.
pub open spec fn claims<D: Fn(&String) -> Option<Bounty>, E: Fn(&String, &Bounty) -> String>(
    before: Map<String, String>,
    after: Map<String, String>,
    decode: D,
    rewrite: E,
    id: Seq<char>,
    caller: Seq<char>,
) -> bool {
    &&& after.dom() == before.dom()
    &&& forall|key: String| #[trigger]
        before.contains_key(key) ==> claims_record(
            before[key],
            after[key],
            decode,
            rewrite,
            id,
            caller,
        )
}

/// `entries` are the keys of `records` with their texts, each once, in some order.
pub open spec fn is_entry_walk(
    records: Map<String, String>,
    entries: Seq<(String, String)>,
) -> bool {
    &&& forall|i: int|
        0 <= i < entries.len() ==> records.contains_key((#[trigger] entries[i]).0)
            && records[entries[i].0] == entries[i].1
    &&& forall|i: int, j: int|
        #![trigger entries[i], entries[j]]
        0 <= i < j < entries.len() ==> entries[i].0 != entries[j].0
    &&& forall|key: String| #[trigger]
        records.contains_key(key) ==> exists|i: int|
            0 <= i < entries.len() && (#[trigger] entries[i]).0 == key
}

/// `records` with the texts of `changes` under their keys.
spec fn changed(records: Map<String, String>, changes: Seq<(String, String)>) -> Map<
    String,
    String,
>
    decreases changes.len(),
{
    if changes.len() == 0 {
        records
    } else {
        changed(records, changes.drop_last()).insert(changes.last().0, changes.last().1)
    }
}

/// std's `HashMap::iter`. The contract claims that the iterator yields each key
/// with its value once and then ends; of the order in which it does, nothing.
#[verifier::external_body]
fn record_entries<'a>(records: &'a HashMap<String, String>) -> (entries: hash_map::Iter<
    'a,
    String,
    String,
>)
    ensures
        is_entry_walk(records@, into_iter(entries)),
        IteratorSpec::initial_value_relation(&entries, &entries),
        IteratorSpec::decrease(&entries) is Some,
{
    records.iter()
}

/// std's `HashMap::insert` under a key that is there: `text` takes the place of
/// what stood under `key`, which is handed back, and nothing else changes.
#[verifier::external_body]
fn replace_record(records: &mut HashMap<String, String>, key: String, text: String) -> (replaced:
    Option<String>)
    requires
        old(records)@.contains_key(key),
    ensures
        final(records)@ == old(records)@.insert(key, text),
        replaced == Some(old(records)@[key]),
{
    records.insert(key, text)
}

impl DbStore {
    /// Makes `caller` the assignee of the bounty `id`, in every record that reads
    /// as that bounty and whoever was its assignee before. `decode` reads a
    /// record, `rewrite` makes a record hold another bounty.
    pub fn claim<D: Fn(&String) -> Option<Bounty>, E: Fn(&String, &Bounty) -> String>(
        &mut self,
        id: &str,
        caller: &str,
        decode: D,
        rewrite: E,
    )
        requires
            forall|raw: String| #[trigger] decode.requires((&raw,)),
            forall|raw: String, bounty: Bounty| #[trigger] rewrite.requires((&raw, &bounty)),
        ensures
            claims(old(self).records@, final(self).records@, decode, rewrite, id@, caller@),
    {
        let wanted = id.to_owned();
        let mut changes: Vec<(String, String)> = Vec::new();
        let ghost before = self.records@;
        let entries = record_entries(&self.records);
        let ghost pairs = into_iter(entries);
        for entry in walk: entries
            invariant
                forall|raw: String| #[trigger] decode.requires((&raw,)),
                forall|raw: String, bounty: Bounty| #[trigger] rewrite.requires((&raw, &bounty)),
                wanted@ == id@,
                is_entry_walk(before, pairs),
                walk.seq().unref() == pairs,
                changed(before, changes@).dom() == before.dom(),
                forall|n: int|
                    0 <= n < changes@.len() ==> before.contains_key((#[trigger] changes@[n]).0),
                forall|i: int|
                    0 <= i < walk.index() ==> claims_record(
                        (#[trigger] pairs[i]).1,
                        changed(before, changes@)[pairs[i].0],
                        decode,
                        rewrite,
                        id@,
                        caller@,
                    ),
                forall|i: int|
                    walk.index() <= i < pairs.len() ==> changed(before, changes@)[(
                    #[trigger] pairs[i]).0] == pairs[i].1,
        {
            let (key, raw) = entry;
            let ghost at = walk.index();
            let ghost so_far = changes@;
            assert(pairs[at] == (*key, *raw));
            let read = decode(raw);
            if let Some(bounty) = read {
                if bounty.id == wanted {
                    let claimed = Bounty {
                        id: bounty.id,
                        creator: bounty.creator,
                        assignee: Some(caller.to_owned()),
                        created_at: bounty.created_at,
                    };
                    let text = rewrite(raw, &claimed);
                    assert(is_claimed_by(claimed, bounty, caller@));
                    changes.push((key.clone(), text));
                    assert(changes@.drop_last() == so_far);
                }
            }
        }
        proof {
            let after = changed(before, changes@);
            assert forall|key: String| #[trigger] before.contains_key(key) implies claims_record(
                before[key],
                after[key],
                decode,
                rewrite,
                id@,
                caller@,
            ) by {
                let i = choose|i: int| 0 <= i < pairs.len() && (#[trigger] pairs[i]).0 == key;
                assert(claims_record(pairs[i].1, after[pairs[i].0], decode, rewrite, id@, caller@));
            }
            assert(claims(before, after, decode, rewrite, id@, caller@));
        }
        let ghost all = changes@;
        for change in walk: changes
            invariant
                walk.seq() == all,
                self.records@ == changed(before, all.take(walk.index())),
                self.records@.dom() == before.dom(),
                forall|n: int|
                    0 <= n < all.len() ==> before.contains_key((#[trigger] all[n]).0),
        {
            let ghost at = walk.index();
            assert(all[at] == change);
            let (key, text) = change;
            let _ = replace_record(&mut self.records, key, text);
            assert(all.take(at + 1).drop_last() == all.take(at));
        }
        assert(all.take(all.len() as int) == all);
    }
}

/// `guard` holds the lock of `db`, and a claim of the bounty `id` by `caller` is
/// all that was done under it to the store that it found.
pub open spec fn holds_claim<D: Fn(&String) -> Option<Bounty>, E: Fn(&String, &Bounty) -> String>(
    guard: RwLockWriteGuard<'_, DbStore>,
    db: SharedDb,
    decode: D,
    rewrite: E,
    id: Seq<char>,
    caller: Seq<char>,
) -> bool {
    &&& write_guard_lock(guard) == *db
    &&& claims(
        write_guard_found(guard).records@,
        write_guard_store(guard).records@,
        decode,
        rewrite,
        id,
        caller,
    )
}

/// A claim of the bounty `id` by `caller` was stored under a write guard of the
/// lock of `db`.
pub open spec fn claims_shared<D: Fn(&String) -> Option<Bounty>, E: Fn(&String, &Bounty) -> String>(
    db: SharedDb,
    decode: D,
    rewrite: E,
    id: Seq<char>,
    caller: Seq<char>,
) -> bool {
    exists|guard: RwLockWriteGuard<'_, DbStore>| #[trigger]
        holds_claim(guard, db, decode, rewrite, id, caller)
}

/// Stores that `caller` claims the bounty `id`, as [`DbStore::claim`] says, and
/// hands back the guard under which it did.
///
/// What the store holds at the moment of the call, and what becomes of it once the
/// guard is gone, is up to the threads that share it.
pub fn store_claim<'a, D: Fn(&String) -> Option<Bounty>, E: Fn(&String, &Bounty) -> String>(
    db: &'a SharedDb,
    id: &str,
    caller: &str,
    decode: D,
    rewrite: E,
) -> (guard: RwLockWriteGuard<'a, DbStore>)
    requires
        forall|raw: String| #[trigger] decode.requires((&raw,)),
        forall|raw: String, bounty: Bounty| #[trigger] rewrite.requires((&raw, &bounty)),
    ensures
        holds_claim(guard, *db, decode, rewrite, id@, caller@),
{
    let mut guard = acquire_db(db);
    let store = guarded_store_mut(&mut guard);
    store.claim(id, caller, decode, rewrite);
    guard
}

/// `decode` reads what `rewrite` makes of a record as the bounty that the record
/// was made to hold.
pub open spec fn reads_what_is_written<
    D: Fn(&String) -> Option<Bounty>,
    E: Fn(&String, &Bounty) -> String,
>(decode: D, rewrite: E) -> bool {
    forall|raw: String, bounty: Bounty, text: String, out: Option<Bounty>|
        #![trigger call_ensures(rewrite, (&raw, &bounty), text), call_ensures(decode, (&text,), out)]
        call_ensures(rewrite, (&raw, &bounty), text) && call_ensures(decode, (&text,), out) ==> out
            == Some(bounty)
}

/// What a claim does to the records of a store: no key comes or goes. A record
/// that does not read as the claimed bounty stays as it was. One that does is
/// rewritten to hold the bounty as it was read, but for its assignee, who is now
/// the caller.
pub proof fn claim_in_full<
    D: Fn(&String) -> Option<Bounty>,
    E: Fn(&String, &Bounty) -> String,
>(
    before: Map<String, String>,
    after: Map<String, String>,
    decode: D,
    rewrite: E,
    id: Seq<char>,
    caller: Seq<char>,
)
    requires
        claims(before, after, decode, rewrite, id, caller),
    ensures
        after.dom() == before.dom(),
        forall|key: String| #[trigger]
            before.contains_key(key) ==> exists|read: Option<Bounty>| #[trigger]
                call_ensures(decode, (&before[key],), read) && {
                    &&& (read is None || read->Some_0.id@ != id) ==> after[key] == before[key]
                    &&& (read is Some && read->Some_0.id@ == id) ==> exists|claimed: Bounty|
                        #[trigger]
                        call_ensures(rewrite, (&before[key], &claimed), after[key]) && {
                            &&& claimed.id == read->Some_0.id
                            &&& claimed.creator == read->Some_0.creator
                            &&& claimed.created_at == read->Some_0.created_at
                            &&& claimed.assignee is Some
                            &&& claimed.assignee->Some_0@ == caller
                        }
                },
{
    assert forall|key: String| #[trigger] before.contains_key(key) implies exists|
        read: Option<Bounty>,
    | #[trigger]
        call_ensures(decode, (&before[key],), read) && {
            &&& (read is None || read->Some_0.id@ != id) ==> after[key] == before[key]
            &&& (read is Some && read->Some_0.id@ == id) ==> exists|claimed: Bounty| #[trigger]
                call_ensures(rewrite, (&before[key], &claimed), after[key]) && {
                    &&& claimed.id == read->Some_0.id
                    &&& claimed.creator == read->Some_0.creator
                    &&& claimed.created_at == read->Some_0.created_at
                    &&& claimed.assignee is Some
                    &&& claimed.assignee->Some_0@ == caller
                }
        } by {
        assert(claims_record(before[key], after[key], decode, rewrite, id, caller));
        let read = choose|read: Option<Bounty>| #[trigger]
            call_ensures(decode, (&before[key],), read) && match read {
                Some(bounty) => if bounty.id@ == id {
                    records_claim(before[key], after[key], bounty, rewrite, caller)
                } else {
                    after[key] == before[key]
                },
                None => after[key] == before[key],
            };
        assert(call_ensures(decode, (&before[key],), read));
        if read is Some && read->Some_0.id@ == id {
            assert(records_claim(before[key], after[key], read->Some_0, rewrite, caller));
            let claimed = choose|claimed: Bounty| #[trigger]
                is_claimed_by(claimed, read->Some_0, caller) && call_ensures(
                    rewrite,
                    (&before[key], &claimed),
                    after[key],
                );
            assert(call_ensures(rewrite, (&before[key], &claimed), after[key]));
        }
    }
}

/// What a stored claim did to a shared store, under a write guard of its lock, from
/// the records that the guard found to those that it left: what [`claim_in_full`]
/// says.
pub proof fn shared_claim_in_full<
    D: Fn(&String) -> Option<Bounty>,
    E: Fn(&String, &Bounty) -> String,
>(
    db: SharedDb,
    decode: D,
    rewrite: E,
    id: Seq<char>,
    caller: Seq<char>,
) -> (found: (Map<String, String>, Map<String, String>))
    requires
        claims_shared(db, decode, rewrite, id, caller),
    ensures
        exists|guard: RwLockWriteGuard<'_, DbStore>|
            #![trigger write_guard_store(guard)]
            write_guard_lock(guard) == *db && write_guard_found(guard).records@ == found.0
                && write_guard_store(guard).records@ == found.1,
        found.1.dom() == found.0.dom(),
        forall|key: String| #[trigger]
            found.0.contains_key(key) ==> exists|read: Option<Bounty>| #[trigger]
                call_ensures(decode, (&found.0[key],), read) && {
                    &&& (read is None || read->Some_0.id@ != id) ==> found.1[key] == found.0[key]
                    &&& (read is Some && read->Some_0.id@ == id) ==> exists|claimed: Bounty|
                        #[trigger]
                        call_ensures(rewrite, (&found.0[key], &claimed), found.1[key]) && {
                            &&& claimed.id == read->Some_0.id
                            &&& claimed.creator == read->Some_0.creator
                            &&& claimed.created_at == read->Some_0.created_at
                            &&& claimed.assignee is Some
                            &&& claimed.assignee->Some_0@ == caller
                        }
                },
{
    let guard = choose|guard: RwLockWriteGuard<'_, DbStore>| #[trigger]
        holds_claim(guard, db, decode, rewrite, id, caller);
    let before = write_guard_found(guard).records@;
    let after = write_guard_store(guard).records@;
    claim_in_full(before, after, decode, rewrite, id, caller);
    (before, after)
}

/// What a claim did under the guard that it was stored under, from the store that
/// the guard found to the store that it shows: what [`claim_in_full`] says.
pub proof fn held_claim_in_full<
    D: Fn(&String) -> Option<Bounty>,
    E: Fn(&String, &Bounty) -> String,
>(
    guard: RwLockWriteGuard<'_, DbStore>,
    db: SharedDb,
    decode: D,
    rewrite: E,
    id: Seq<char>,
    caller: Seq<char>,
    before: Map<String, String>,
    after: Map<String, String>,
)
    requires
        holds_claim(guard, db, decode, rewrite, id, caller),
        before == write_guard_found(guard).records@,
        after == write_guard_store(guard).records@,
    ensures
        write_guard_lock(guard) == *db,
        after.dom() == before.dom(),
        forall|key: String| #[trigger]
            before.contains_key(key) ==> exists|read: Option<Bounty>| #[trigger]
                call_ensures(decode, (&before[key],), read) && {
                    &&& (read is None || read->Some_0.id@ != id) ==> after[key] == before[key]
                    &&& (read is Some && read->Some_0.id@ == id) ==> exists|claimed: Bounty|
                        #[trigger]
                        call_ensures(rewrite, (&before[key], &claimed), after[key]) && {
                            &&& claimed.id == read->Some_0.id
                            &&& claimed.creator == read->Some_0.creator
                            &&& claimed.created_at == read->Some_0.created_at
                            &&& claimed.assignee is Some
                            &&& claimed.assignee->Some_0@ == caller
                        }
                },
{
    claim_in_full(before, after, decode, rewrite, id, caller);
}

/// A claimed bounty is listed under who claimed it, as it was but for its
/// assignee, unless the page is full of bounties that are no older.
pub proof fn claimed_bounty_is_listed<
    D: Fn(&String) -> Option<Bounty>,
    E: Fn(&String, &Bounty) -> String,
>(
    before: Map<String, String>,
    after: Map<String, String>,
    decode: D,
    rewrite: E,
    key: String,
    bounty: Bounty,
    caller: Seq<char>,
    page: BountyPage,
    limit: i64,
    cursor: Option<Timestamp>,
) -> (claimed: Bounty)
    requires
        claims(before, after, decode, rewrite, bounty.id@, caller),
        before.contains_key(key),
        forall|out: Option<Bounty>|
            call_ensures(decode, (&before[key],), out) ==> out == Some(bounty),
        reads_what_is_written(decode, rewrite),
        lists(page, after, decode, by_assignee(caller), limit, cursor),
        admits(cursor, bounty),
    ensures
        is_claimed_by(claimed, bounty, caller),
        claimed.id == bounty.id,
        claimed.creator == bounty.creator,
        claimed.created_at == bounty.created_at,
        claimed.assignee is Some,
        claimed.assignee->Some_0@ == caller,
        page.bounties@.contains(claimed) || {
            &&& page.bounties@.len() == limit
            &&& forall|i: int|
                0 <= i < page.bounties@.len() ==> !(#[trigger] page.bounties@[i]).created_at.before(
                    bounty.created_at,
                )
        },
{
    assert(claims_record(before[key], after[key], decode, rewrite, bounty.id@, caller));
    assert(records_claim(before[key], after[key], bounty, rewrite, caller));
    let claimed = choose|claimed: Bounty| #[trigger]
        is_claimed_by(claimed, bounty, caller) && call_ensures(
            rewrite,
            (&before[key], &claimed),
            after[key],
        );
    assert(after.contains_key(key));
    recorded_bounty_is_listed(
        page,
        after,
        decode,
        by_assignee(caller),
        limit,
        cursor,
        key,
        claimed,
    );
    claimed
}

/// A claim leaves alone every record that does not read as the claimed bounty,
/// those that cannot be read among them.
pub proof fn claim_leaves_other_records<
    D: Fn(&String) -> Option<Bounty>,
    E: Fn(&String, &Bounty) -> String,
>(
    before: Map<String, String>,
    after: Map<String, String>,
    decode: D,
    rewrite: E,
    id: Seq<char>,
    caller: Seq<char>,
    key: String,
)
    requires
        claims(before, after, decode, rewrite, id, caller),
        before.contains_key(key),
        forall|bounty: Bounty|
            call_ensures(decode, (&before[key],), Some(bounty)) ==> bounty.id@ != id,
    ensures
        after.contains_key(key),
        after[key] == before[key],
{
    assert(claims_record(before[key], after[key], decode, rewrite, id, caller));
}

} // verus!
