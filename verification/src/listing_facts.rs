//! What a listing shows of a store, told by the fields of the bounties and by the
//! records that they read from.
//!
//! The time of an instant is written out as one number, `seconds` times ten to the
//! tenth plus `nanos`: `nanos` is always less than ten to the tenth.
use std::sync::RwLockReadGuard;

use vstd::prelude::*;

use crate::db::{
    by_assignee, by_creator, lists, lists_shared, readable, Bounty, BountyPage, DbStore, SharedDb,
};
use crate::listing_laws::reading_of;
use crate::lock::{read_guard_lock, read_guard_store};
use crate::page_facts::page_in_full;
use crate::paging::{admits, selected, selected_push};
use crate::timestamp::{instants_are_ordered_by_time, Timestamp};

verus! {

/// The places among `read` from which a selection takes its bounties.
proof fn places_of_selection(
    read: Seq<Option<Bounty>>,
    keep: spec_fn(Bounty) -> bool,
    cursor: Option<Timestamp>,
) -> (places: Seq<int>)
    ensures
        places.len() == selected(readable(read), keep, cursor).len(),
        forall|i: int|
            0 <= i < places.len() ==> 0 <= #[trigger] places[i] < read.len() && {
                let bounty = selected(readable(read), keep, cursor)[i];
                read[places[i]] == Some(bounty) && keep(bounty) && admits(cursor, bounty)
            },
        forall|i: int, j: int|
            #![trigger places[i], places[j]]
            0 <= i < j < places.len() ==> places[i] < places[j],
        forall|n: int|
            0 <= n < read.len() && !places.contains(n) ==> (#[trigger] read[n] matches Some(bounty)
                ==> !(keep(bounty) && admits(cursor, bounty))),
    decreases read.len(),
{
    if read.len() == 0 {
        reveal(Seq::filter);
        Seq::empty()
    } else {
        let rest = read.drop_last();
        let end = read.len() - 1;
        let before = places_of_selection(rest, keep, cursor);
        let taken = read.last() matches Some(bounty) && keep(bounty) && admits(cursor, bounty);
        if let Some(bounty) = read.last() {
            selected_push(readable(rest), bounty, keep, cursor);
        }
        let places = if taken {
            before.push(end)
        } else {
            before
        };
        assert forall|i: int| 0 <= i < places.len() implies 0 <= #[trigger] places[i] < read.len()
            && {
            let bounty = selected(readable(read), keep, cursor)[i];
            read[places[i]] == Some(bounty) && keep(bounty) && admits(cursor, bounty)
        } by {
            if i < before.len() {
                assert(places[i] == before[i]);
                assert(read[before[i]] == rest[before[i]]);
            }
        }
        assert forall|n: int| 0 <= n < read.len() && !places.contains(n) implies (
        #[trigger] read[n] matches Some(bounty) ==> !(keep(bounty) && admits(cursor, bounty))) by {
            if n < end {
                if before.contains(n) {
                    let i = choose|i: int| 0 <= i < before.len() && before[i] == n;
                    assert(places[i] == n);
                }
                assert(rest[n] == read[n]);
            } else if taken {
                assert(places[before.len() as int] == n);
            }
        }
        places
    }
}

/// A cursor lets a bounty in exactly where the bounty was created before it.
pub proof fn cursor_goes_by_time(cursor: Option<Timestamp>, bounty: Bounty)
    ensures
        admits(cursor, bounty) <==> (cursor matches Some(at) ==> bounty.created_at.seconds
            * 10_000_000_000 + bounty.created_at.nanos < at.seconds * 10_000_000_000 + at.nanos),
{
    if let Some(at) = cursor {
        instants_are_ordered_by_time(bounty.created_at, at);
    }
}

/// What a listing shows. Each bounty on the page reads from a record of its own
/// that the filter lets in and that was created before the cursor, and later ones
/// come first. A record that is not shown cannot be read, is not let in, was not
/// created before the cursor, or is no later than anything on a full page. The
/// page names a cursor, the instant of its last bounty, only where it left out a
/// bounty that could have been shown, and always then, unless the limit is 0.
pub proof fn listing_in_full<D: Fn(&String) -> Option<Bounty>>(
    page: BountyPage,
    records: Map<String, String>,
    decode: D,
    keep: spec_fn(Bounty) -> bool,
    limit: i64,
    cursor: Option<Timestamp>,
) -> (keys: Seq<String>)
    requires
        lists(page, records, decode, keep, limit, cursor),
    ensures
        keys.len() == page.bounties@.len(),
        keys.no_duplicates(),
        forall|i: int|
            0 <= i < page.bounties@.len() ==> {
                let shown = #[trigger] page.bounties@[i];
                &&& records.contains_key(keys[i])
                &&& call_ensures(decode, (&records[keys[i]],), Some(shown))
                &&& keep(shown)
                &&& cursor matches Some(at) ==> shown.created_at.seconds * 10_000_000_000
                    + shown.created_at.nanos < at.seconds * 10_000_000_000 + at.nanos
            },
        forall|i: int, j: int|
            #![trigger page.bounties@[i], page.bounties@[j]]
            0 <= i < j < page.bounties@.len() ==> page.bounties@[i].created_at.seconds
                * 10_000_000_000 + page.bounties@[i].created_at.nanos
                >= page.bounties@[j].created_at.seconds * 10_000_000_000
                + page.bounties@[j].created_at.nanos,
        limit >= 0 ==> page.bounties@.len() <= limit,
        forall|key: String| #[trigger]
            records.contains_key(key) && !keys.contains(key) ==> exists|out: Option<Bounty>|
                #[trigger]
                call_ensures(decode, (&records[key],), out) && (out matches Some(other) ==> {
                    ||| !(keep(other))
                    ||| cursor matches Some(at) && other.created_at.seconds * 10_000_000_000
                        + other.created_at.nanos >= at.seconds * 10_000_000_000 + at.nanos
                    ||| {
                        &&& page.bounties@.len() == limit
                        &&& limit > 0 ==> page.next_cursor is Some
                        &&& forall|i: int|
                            0 <= i < page.bounties@.len() ==> (
                            #[trigger] page.bounties@[i]).created_at.seconds * 10_000_000_000
                                + page.bounties@[i].created_at.nanos >= other.created_at.seconds
                                * 10_000_000_000 + other.created_at.nanos
                    }
                }),
        page.next_cursor matches Some(next) ==> {
            &&& limit > 0
            &&& page.bounties@.len() == limit
            &&& next == page.bounties@[page.bounties@.len() - 1].created_at
            &&& exists|key: String, other: Bounty| #[trigger]
                call_ensures(decode, (&records[key],), Some(other)) && {
                    &&& records.contains_key(key)
                    &&& !keys.contains(key)
                    &&& keep(other)
                    &&& cursor matches Some(at) ==> other.created_at.seconds * 10_000_000_000
                        + other.created_at.nanos < at.seconds * 10_000_000_000 + at.nanos
                }
        },
{
    let (all_keys, read) = reading_of(page, records, decode, keep, limit, cursor);
    let candidates = selected(readable(read), keep, cursor);
    let chosen = places_of_selection(read, keep, cursor);
    let places = page_in_full(page, candidates, limit);
    let keys = places.map_values(|place: int| all_keys[chosen[place]]);
    let n = page.bounties@.len();
    assert forall|i: int, j: int| 0 <= i < j < keys.len() implies keys[i] != keys[j] by {
        assert(page.bounties@[i] == candidates[places[i]]);
        assert(page.bounties@[j] == candidates[places[j]]);
        assert(places[i] != places[j]);
        assert(chosen[places[i]] != chosen[places[j]]);
    }
    assert forall|i: int| 0 <= i < n implies {
        let shown = #[trigger] page.bounties@[i];
        &&& records.contains_key(keys[i])
        &&& call_ensures(decode, (&records[keys[i]],), Some(shown))
        &&& keep(shown)
        &&& cursor matches Some(at) ==> shown.created_at.seconds * 10_000_000_000
            + shown.created_at.nanos < at.seconds * 10_000_000_000 + at.nanos
    } by {
        let m = chosen[places[i]];
        assert(page.bounties@[i] == candidates[places[i]]);
        assert(keys[i] == all_keys[m]);
        assert(read[m] == Some(page.bounties@[i]));
        cursor_goes_by_time(cursor, page.bounties@[i]);
    }
    assert forall|key: String| #[trigger]
        records.contains_key(key) && !keys.contains(key) implies exists|
        out: Option<Bounty>,
    | #[trigger]
        call_ensures(decode, (&records[key],), out) && (out matches Some(other) ==> {
            ||| !keep(other)
            ||| cursor matches Some(at) && other.created_at.seconds * 10_000_000_000
                + other.created_at.nanos >= at.seconds * 10_000_000_000 + at.nanos
            ||| {
                &&& n == limit
                &&& limit > 0 ==> page.next_cursor is Some
                &&& forall|i: int|
                    0 <= i < n ==> (#[trigger] page.bounties@[i]).created_at.seconds
                        * 10_000_000_000 + page.bounties@[i].created_at.nanos
                        >= other.created_at.seconds * 10_000_000_000 + other.created_at.nanos
            }
        }) by {
        assert(all_keys.to_set().contains(key));
        let m = choose|m: int| 0 <= m < all_keys.len() && all_keys[m] == key;
        assert(call_ensures(decode, (&records[key],), read[m]));
        if let Some(other) = read[m] {
            cursor_goes_by_time(cursor, other);
            if keep(other) && admits(cursor, other) {
                assert(chosen.contains(m));
                let k = choose|k: int| 0 <= k < chosen.len() && chosen[k] == m;
                assert(candidates[k] == other);
                if places.contains(k) {
                    let i = choose|i: int| 0 <= i < places.len() && places[i] == k;
                    assert(keys[i] == key);
                }
                if n == candidates.len() {
                    left_out_where_too_few(places, candidates.len(), k);
                }
                assert forall|i: int| 0 <= i < n implies (
                #[trigger] page.bounties@[i]).created_at.seconds * 10_000_000_000
                    + page.bounties@[i].created_at.nanos >= other.created_at.seconds
                    * 10_000_000_000 + other.created_at.nanos by {
                    assert(candidates[k] == other);
                }
            }
        }
    }
    if let Some(next) = page.next_cursor {
        let k = one_left_out(places, candidates.len());
        let m = chosen[k];
        let other = candidates[k];
        let key = all_keys[m];
        assert(read[m] == Some(other));
        cursor_goes_by_time(cursor, other);
        if keys.contains(key) {
            let i = choose|i: int| 0 <= i < keys.len() && keys[i] == key;
            assert(all_keys[chosen[places[i]]] == all_keys[m]);
            assert(chosen[places[i]] == m);
            assert(places[i] == k);
        }
        assert(call_ensures(decode, (&records[key],), Some(other)));
    }
    keys
}

/// What a listing of a shared store shows, of a store that a read guard of its
/// lock gave access to: what [`listing_in_full`] says.
pub proof fn shared_listing_in_full<D: Fn(&String) -> Option<Bounty>>(
    page: BountyPage,
    db: SharedDb,
    decode: D,
    keep: spec_fn(Bounty) -> bool,
    limit: i64,
    cursor: Option<Timestamp>,
) -> (found: (Map<String, String>, Seq<String>))
    requires
        lists_shared(page, db, decode, keep, limit, cursor),
    ensures
        exists|guard: RwLockReadGuard<'_, DbStore>|
            #![trigger read_guard_store(guard)]
            read_guard_lock(guard) == *db && read_guard_store(guard).records@ == found.0,
        found.1.len() == page.bounties@.len(),
        found.1.no_duplicates(),
        forall|i: int|
            0 <= i < page.bounties@.len() ==> {
                let shown = #[trigger] page.bounties@[i];
                &&& found.0.contains_key(found.1[i])
                &&& call_ensures(decode, (&found.0[found.1[i]],), Some(shown))
                &&& keep(shown)
                &&& cursor matches Some(at) ==> shown.created_at.seconds * 10_000_000_000
                    + shown.created_at.nanos < at.seconds * 10_000_000_000 + at.nanos
            },
        forall|i: int, j: int|
            #![trigger page.bounties@[i], page.bounties@[j]]
            0 <= i < j < page.bounties@.len() ==> page.bounties@[i].created_at.seconds
                * 10_000_000_000 + page.bounties@[i].created_at.nanos
                >= page.bounties@[j].created_at.seconds * 10_000_000_000
                + page.bounties@[j].created_at.nanos,
        limit >= 0 ==> page.bounties@.len() <= limit,
        forall|key: String| #[trigger]
            found.0.contains_key(key) && !found.1.contains(key) ==> exists|out: Option<Bounty>|
                #[trigger]
                call_ensures(decode, (&found.0[key],), out) && (out matches Some(other) ==> {
                    ||| !(keep(other))
                    ||| cursor matches Some(at) && other.created_at.seconds * 10_000_000_000
                        + other.created_at.nanos >= at.seconds * 10_000_000_000 + at.nanos
                    ||| {
                        &&& page.bounties@.len() == limit
                        &&& limit > 0 ==> page.next_cursor is Some
                        &&& forall|i: int|
                            0 <= i < page.bounties@.len() ==> (
                            #[trigger] page.bounties@[i]).created_at.seconds * 10_000_000_000
                                + page.bounties@[i].created_at.nanos >= other.created_at.seconds
                                * 10_000_000_000 + other.created_at.nanos
                    }
                }),
        page.next_cursor matches Some(next) ==> {
            &&& limit > 0
            &&& page.bounties@.len() == limit
            &&& next == page.bounties@[page.bounties@.len() - 1].created_at
            &&& exists|key: String, other: Bounty| #[trigger]
                call_ensures(decode, (&found.0[key],), Some(other)) && {
                    &&& found.0.contains_key(key)
                    &&& !found.1.contains(key)
                    &&& keep(other)
                    &&& cursor matches Some(at) ==> other.created_at.seconds * 10_000_000_000
                        + other.created_at.nanos < at.seconds * 10_000_000_000 + at.nanos
                }
        },
{
    let guard = choose|guard: RwLockReadGuard<'_, DbStore>|
        #![trigger read_guard_store(guard)]
        read_guard_lock(guard) == *db && lists(
            page,
            read_guard_store(guard).records@,
            decode,
            keep,
            limit,
            cursor,
        );
    let records = read_guard_store(guard).records@;
    let keys = listing_in_full(page, records, decode, keep, limit, cursor);
    let found = (records, keys);
    if page.next_cursor is Some {
        let (key, other) = choose|key: String, other: Bounty| #[trigger]
            call_ensures(decode, (&records[key],), Some(other)) && {
                &&& records.contains_key(key)
                &&& !keys.contains(key)
                &&& keep(other)
                &&& cursor matches Some(at) ==> other.created_at.seconds * 10_000_000_000
                    + other.created_at.nanos < at.seconds * 10_000_000_000 + at.nanos
            };
        assert(call_ensures(decode, (&found.0[key],), Some(other)));
    }
    found
}

/// What a listing by creator shows of a shared store: the bounties whose creator
/// is `creator`, to the letter, or all where `creator` is empty. The rest is as
/// [`listing_in_full`] says.
pub proof fn listing_by_creator_in_full<D: Fn(&String) -> Option<Bounty>>(
    page: BountyPage,
    db: SharedDb,
    decode: D,
    creator: Seq<char>,
    limit: i64,
    cursor: Option<Timestamp>,
) -> (found: (Map<String, String>, Seq<String>))
    requires
        lists_shared(page, db, decode, by_creator(creator), limit, cursor),
    ensures
        exists|guard: RwLockReadGuard<'_, DbStore>|
            #![trigger read_guard_store(guard)]
            read_guard_lock(guard) == *db && read_guard_store(guard).records@ == found.0,
        found.1.len() == page.bounties@.len(),
        found.1.no_duplicates(),
        forall|i: int|
            0 <= i < page.bounties@.len() ==> {
                let shown = #[trigger] page.bounties@[i];
                &&& found.0.contains_key(found.1[i])
                &&& call_ensures(decode, (&found.0[found.1[i]],), Some(shown))
                &&& creator.len() == 0 || shown.creator@ == creator
                &&& cursor matches Some(at) ==> shown.created_at.seconds * 10_000_000_000
                    + shown.created_at.nanos < at.seconds * 10_000_000_000 + at.nanos
            },
        forall|i: int, j: int|
            #![trigger page.bounties@[i], page.bounties@[j]]
            0 <= i < j < page.bounties@.len() ==> page.bounties@[i].created_at.seconds
                * 10_000_000_000 + page.bounties@[i].created_at.nanos
                >= page.bounties@[j].created_at.seconds * 10_000_000_000
                + page.bounties@[j].created_at.nanos,
        limit >= 0 ==> page.bounties@.len() <= limit,
        forall|key: String| #[trigger]
            found.0.contains_key(key) && !found.1.contains(key) ==> exists|out: Option<Bounty>|
                #[trigger]
                call_ensures(decode, (&found.0[key],), out) && (out matches Some(other) ==> {
                    ||| !(creator.len() == 0 || other.creator@ == creator)
                    ||| cursor matches Some(at) && other.created_at.seconds * 10_000_000_000
                        + other.created_at.nanos >= at.seconds * 10_000_000_000 + at.nanos
                    ||| {
                        &&& page.bounties@.len() == limit
                        &&& limit > 0 ==> page.next_cursor is Some
                        &&& forall|i: int|
                            0 <= i < page.bounties@.len() ==> (
                            #[trigger] page.bounties@[i]).created_at.seconds * 10_000_000_000
                                + page.bounties@[i].created_at.nanos >= other.created_at.seconds
                                * 10_000_000_000 + other.created_at.nanos
                    }
                }),
        page.next_cursor matches Some(next) ==> {
            &&& limit > 0
            &&& page.bounties@.len() == limit
            &&& next == page.bounties@[page.bounties@.len() - 1].created_at
            &&& exists|key: String, other: Bounty| #[trigger]
                call_ensures(decode, (&found.0[key],), Some(other)) && {
                    &&& found.0.contains_key(key)
                    &&& !found.1.contains(key)
                    &&& creator.len() == 0 || other.creator@ == creator
                    &&& cursor matches Some(at) ==> other.created_at.seconds * 10_000_000_000
                        + other.created_at.nanos < at.seconds * 10_000_000_000 + at.nanos
                }
        },
{
    shared_listing_in_full(page, db, decode, by_creator(creator), limit, cursor)
}

/// What a listing by assignee shows of a shared store: the bounties whose assignee
/// is `assignee`, to the letter. The rest is as [`listing_in_full`] says.
pub proof fn listing_by_assignee_in_full<D: Fn(&String) -> Option<Bounty>>(
    page: BountyPage,
    db: SharedDb,
    decode: D,
    assignee: Seq<char>,
    limit: i64,
    cursor: Option<Timestamp>,
) -> (found: (Map<String, String>, Seq<String>))
    requires
        lists_shared(page, db, decode, by_assignee(assignee), limit, cursor),
    ensures
        exists|guard: RwLockReadGuard<'_, DbStore>|
            #![trigger read_guard_store(guard)]
            read_guard_lock(guard) == *db && read_guard_store(guard).records@ == found.0,
        found.1.len() == page.bounties@.len(),
        found.1.no_duplicates(),
        forall|i: int|
            0 <= i < page.bounties@.len() ==> {
                let shown = #[trigger] page.bounties@[i];
                &&& found.0.contains_key(found.1[i])
                &&& call_ensures(decode, (&found.0[found.1[i]],), Some(shown))
                &&& (shown.assignee is Some && shown.assignee->Some_0@ == assignee)
                &&& cursor matches Some(at) ==> shown.created_at.seconds * 10_000_000_000
                    + shown.created_at.nanos < at.seconds * 10_000_000_000 + at.nanos
            },
        forall|i: int, j: int|
            #![trigger page.bounties@[i], page.bounties@[j]]
            0 <= i < j < page.bounties@.len() ==> page.bounties@[i].created_at.seconds
                * 10_000_000_000 + page.bounties@[i].created_at.nanos
                >= page.bounties@[j].created_at.seconds * 10_000_000_000
                + page.bounties@[j].created_at.nanos,
        limit >= 0 ==> page.bounties@.len() <= limit,
        forall|key: String| #[trigger]
            found.0.contains_key(key) && !found.1.contains(key) ==> exists|out: Option<Bounty>|
                #[trigger]
                call_ensures(decode, (&found.0[key],), out) && (out matches Some(other) ==> {
                    ||| !((other.assignee is Some && other.assignee->Some_0@ == assignee))
                    ||| cursor matches Some(at) && other.created_at.seconds * 10_000_000_000
                        + other.created_at.nanos >= at.seconds * 10_000_000_000 + at.nanos
                    ||| {
                        &&& page.bounties@.len() == limit
                        &&& limit > 0 ==> page.next_cursor is Some
                        &&& forall|i: int|
                            0 <= i < page.bounties@.len() ==> (
                            #[trigger] page.bounties@[i]).created_at.seconds * 10_000_000_000
                                + page.bounties@[i].created_at.nanos >= other.created_at.seconds
                                * 10_000_000_000 + other.created_at.nanos
                    }
                }),
        page.next_cursor matches Some(next) ==> {
            &&& limit > 0
            &&& page.bounties@.len() == limit
            &&& next == page.bounties@[page.bounties@.len() - 1].created_at
            &&& exists|key: String, other: Bounty| #[trigger]
                call_ensures(decode, (&found.0[key],), Some(other)) && {
                    &&& found.0.contains_key(key)
                    &&& !found.1.contains(key)
                    &&& (other.assignee is Some && other.assignee->Some_0@ == assignee)
                    &&& cursor matches Some(at) ==> other.created_at.seconds * 10_000_000_000
                        + other.created_at.nanos < at.seconds * 10_000_000_000 + at.nanos
                }
        },
{
    shared_listing_in_full(page, db, decode, by_assignee(assignee), limit, cursor)
}

/// What a listing by creator shows of the records of a store: the bounties whose
/// creator is `creator`, to the letter, or all where `creator` is empty. The rest
/// is as [`listing_in_full`] says.
pub proof fn stored_bounties_by_creator_in_full<D: Fn(&String) -> Option<Bounty>>(
    page: BountyPage,
    records: Map<String, String>,
    decode: D,
    creator: Seq<char>,
    limit: i64,
    cursor: Option<Timestamp>,
) -> (keys: Seq<String>)
    requires
        lists(page, records, decode, by_creator(creator), limit, cursor),
    ensures
        keys.len() == page.bounties@.len(),
        keys.no_duplicates(),
        forall|i: int|
            0 <= i < page.bounties@.len() ==> {
                let shown = #[trigger] page.bounties@[i];
                &&& records.contains_key(keys[i])
                &&& call_ensures(decode, (&records[keys[i]],), Some(shown))
                &&& creator.len() == 0 || shown.creator@ == creator
                &&& cursor matches Some(at) ==> shown.created_at.seconds * 10_000_000_000
                    + shown.created_at.nanos < at.seconds * 10_000_000_000 + at.nanos
            },
        forall|i: int, j: int|
            #![trigger page.bounties@[i], page.bounties@[j]]
            0 <= i < j < page.bounties@.len() ==> page.bounties@[i].created_at.seconds
                * 10_000_000_000 + page.bounties@[i].created_at.nanos
                >= page.bounties@[j].created_at.seconds * 10_000_000_000
                + page.bounties@[j].created_at.nanos,
        limit >= 0 ==> page.bounties@.len() <= limit,
        forall|key: String| #[trigger]
            records.contains_key(key) && !keys.contains(key) ==> exists|out: Option<Bounty>|
                #[trigger]
                call_ensures(decode, (&records[key],), out) && (out matches Some(other) ==> {
                    ||| !(creator.len() == 0 || other.creator@ == creator)
                    ||| cursor matches Some(at) && other.created_at.seconds * 10_000_000_000
                        + other.created_at.nanos >= at.seconds * 10_000_000_000 + at.nanos
                    ||| {
                        &&& page.bounties@.len() == limit
                        &&& limit > 0 ==> page.next_cursor is Some
                        &&& forall|i: int|
                            0 <= i < page.bounties@.len() ==> (
                            #[trigger] page.bounties@[i]).created_at.seconds * 10_000_000_000
                                + page.bounties@[i].created_at.nanos >= other.created_at.seconds
                                * 10_000_000_000 + other.created_at.nanos
                    }
                }),
        page.next_cursor matches Some(next) ==> {
            &&& limit > 0
            &&& page.bounties@.len() == limit
            &&& next == page.bounties@[page.bounties@.len() - 1].created_at
            &&& exists|key: String, other: Bounty| #[trigger]
                call_ensures(decode, (&records[key],), Some(other)) && {
                    &&& records.contains_key(key)
                    &&& !keys.contains(key)
                    &&& creator.len() == 0 || other.creator@ == creator
                    &&& cursor matches Some(at) ==> other.created_at.seconds * 10_000_000_000
                        + other.created_at.nanos < at.seconds * 10_000_000_000 + at.nanos
                }
        },
{
    listing_in_full(page, records, decode, by_creator(creator), limit, cursor)
}

/// What a listing by assignee shows of the records of a store: the bounties whose
/// assignee is `assignee`, to the letter. The rest is as [`listing_in_full`] says.
pub proof fn stored_bounties_by_assignee_in_full<D: Fn(&String) -> Option<Bounty>>(
    page: BountyPage,
    records: Map<String, String>,
    decode: D,
    assignee: Seq<char>,
    limit: i64,
    cursor: Option<Timestamp>,
) -> (keys: Seq<String>)
    requires
        lists(page, records, decode, by_assignee(assignee), limit, cursor),
    ensures
        keys.len() == page.bounties@.len(),
        keys.no_duplicates(),
        forall|i: int|
            0 <= i < page.bounties@.len() ==> {
                let shown = #[trigger] page.bounties@[i];
                &&& records.contains_key(keys[i])
                &&& call_ensures(decode, (&records[keys[i]],), Some(shown))
                &&& (shown.assignee is Some && shown.assignee->Some_0@ == assignee)
                &&& cursor matches Some(at) ==> shown.created_at.seconds * 10_000_000_000
                    + shown.created_at.nanos < at.seconds * 10_000_000_000 + at.nanos
            },
        forall|i: int, j: int|
            #![trigger page.bounties@[i], page.bounties@[j]]
            0 <= i < j < page.bounties@.len() ==> page.bounties@[i].created_at.seconds
                * 10_000_000_000 + page.bounties@[i].created_at.nanos
                >= page.bounties@[j].created_at.seconds * 10_000_000_000
                + page.bounties@[j].created_at.nanos,
        limit >= 0 ==> page.bounties@.len() <= limit,
        forall|key: String| #[trigger]
            records.contains_key(key) && !keys.contains(key) ==> exists|out: Option<Bounty>|
                #[trigger]
                call_ensures(decode, (&records[key],), out) && (out matches Some(other) ==> {
                    ||| !((other.assignee is Some && other.assignee->Some_0@ == assignee))
                    ||| cursor matches Some(at) && other.created_at.seconds * 10_000_000_000
                        + other.created_at.nanos >= at.seconds * 10_000_000_000 + at.nanos
                    ||| {
                        &&& page.bounties@.len() == limit
                        &&& limit > 0 ==> page.next_cursor is Some
                        &&& forall|i: int|
                            0 <= i < page.bounties@.len() ==> (
                            #[trigger] page.bounties@[i]).created_at.seconds * 10_000_000_000
                                + page.bounties@[i].created_at.nanos >= other.created_at.seconds
                                * 10_000_000_000 + other.created_at.nanos
                    }
                }),
        page.next_cursor matches Some(next) ==> {
            &&& limit > 0
            &&& page.bounties@.len() == limit
            &&& next == page.bounties@[page.bounties@.len() - 1].created_at
            &&& exists|key: String, other: Bounty| #[trigger]
                call_ensures(decode, (&records[key],), Some(other)) && {
                    &&& records.contains_key(key)
                    &&& !keys.contains(key)
                    &&& (other.assignee is Some && other.assignee->Some_0@ == assignee)
                    &&& cursor matches Some(at) ==> other.created_at.seconds * 10_000_000_000
                        + other.created_at.nanos < at.seconds * 10_000_000_000 + at.nanos
                }
        },
{
    listing_in_full(page, records, decode, by_assignee(assignee), limit, cursor)
}

/// A filter goes by whole names.
pub proof fn filters_go_by_whole_names(name: Seq<char>, bounty: Bounty)
    ensures
        by_creator(name)(bounty) <==> name.len() == 0 || bounty.creator@ == name,
        by_assignee(name)(bounty) <==> bounty.assignee is Some && bounty.assignee->Some_0@ == name,
{
}

/// A page that a shared store gave for the cursor of another holds only bounties
/// that are older than all of that one, and its own cursor lies further back, for
/// any limit and whatever became of the store in between.
pub proof fn shared_page_behind_a_cursor_is_older<D: Fn(&String) -> Option<Bounty>>(
    first: BountyPage,
    second: BountyPage,
    db: SharedDb,
    later: SharedDb,
    decode: D,
    keep: spec_fn(Bounty) -> bool,
    later_keep: spec_fn(Bounty) -> bool,
    limit: i64,
    later_limit: i64,
    cursor: Option<Timestamp>,
)
    requires
        lists_shared(first, db, decode, keep, limit, cursor),
        first.next_cursor is Some,
        lists_shared(second, later, decode, later_keep, later_limit, first.next_cursor),
    ensures
        forall|i: int, j: int|
            #![trigger first.bounties@[i], second.bounties@[j]]
            0 <= i < first.bounties@.len() && 0 <= j < second.bounties@.len()
                ==> second.bounties@[j].created_at.seconds * 10_000_000_000
                + second.bounties@[j].created_at.nanos < first.bounties@[i].created_at.seconds
                * 10_000_000_000 + first.bounties@[i].created_at.nanos,
        second.next_cursor matches Some(at) ==> at.seconds * 10_000_000_000 + at.nanos
            < first.next_cursor->Some_0.seconds * 10_000_000_000
            + first.next_cursor->Some_0.nanos,
{
    let (records, keys) = shared_listing_in_full(first, db, decode, keep, limit, cursor);
    let (later_records, later_keys) = shared_listing_in_full(
        second,
        later,
        decode,
        later_keep,
        later_limit,
        first.next_cursor,
    );
    let end = first.bounties@[first.bounties@.len() - 1];
    assert forall|i: int, j: int|
        #![trigger first.bounties@[i], second.bounties@[j]]
        0 <= i < first.bounties@.len() && 0 <= j < second.bounties@.len()
            implies second.bounties@[j].created_at.seconds * 10_000_000_000
        + second.bounties@[j].created_at.nanos < first.bounties@[i].created_at.seconds
        * 10_000_000_000 + first.bounties@[i].created_at.nanos by {
        assert(first.bounties@[i].created_at.seconds * 10_000_000_000
            + first.bounties@[i].created_at.nanos >= end.created_at.seconds * 10_000_000_000
            + end.created_at.nanos);
    }
    if let Some(at) = second.next_cursor {
        assert(at == second.bounties@[second.bounties@.len() - 1].created_at);
    }
}

/// Different places as many as there are leave none out.
proof fn left_out_where_too_few(places: Seq<int>, n: nat, k: int)
    requires
        places.len() == n,
        forall|i: int| 0 <= i < places.len() ==> 0 <= #[trigger] places[i] < n,
        forall|i: int, j: int|
            #![trigger places[i], places[j]]
            0 <= i < j < places.len() ==> places[i] != places[j],
        0 <= k < n,
    ensures
        places.contains(k),
{
    let all = vstd::set_lib::set_int_range(0, n as int);
    vstd::set_lib::lemma_int_range(0, n as int);
    assert(places.no_duplicates());
    places.unique_seq_to_set();
    assert(places.to_set().subset_of(all)) by {
        assert forall|place: int| places.to_set().contains(place) implies all.contains(place) by {
            let i = choose|i: int| 0 <= i < places.len() && places[i] == place;
        }
    }
    vstd::set_lib::lemma_subset_equality(places.to_set(), all);
    assert(all.contains(k));
}

/// Fewer places than there are leave one out.
proof fn one_left_out(places: Seq<int>, n: nat) -> (k: int)
    requires
        places.len() < n,
    ensures
        0 <= k < n,
        !places.contains(k),
{
    let all = vstd::set_lib::set_int_range(0, n as int);
    vstd::set_lib::lemma_int_range(0, n as int);
    places.lemma_cardinality_of_set();
    if forall|k: int| 0 <= k < n ==> places.contains(k) {
        assert(all.subset_of(places.to_set()));
        vstd::set_lib::lemma_len_subset(all, places.to_set());
    }
    choose|k: int| 0 <= k < n && !places.contains(k)
}

} // verus!
