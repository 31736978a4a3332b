//! What holds of listings: that they give back what the store holds, and
//! nothing else.
use std::sync::RwLockReadGuard;

use vstd::prelude::*;

use crate::db::{
    is_reading, is_walk, lists, lists_shared, names_each_key, readable, Bounty, BountyPage, DbStore,
    SharedDb,
};
use crate::lock::{read_guard_lock, read_guard_store};
use crate::paging::{
    admits, arrangement_is_unique, is_newest_first, is_page, newest_first, newest_first_arranges,
    page_entries, selected,
};
use crate::paging_laws::{
    breaks_cleanly, count_of_filtered, cursor_is_the_end_of_the_page, instants_fix_the_breaks,
    newest_first_fixes_the_instants, next_page_continues, order_of_arrival_is_immaterial,
    page_holds_the_newest, page_keeps_to_its_limit,
};
use crate::timestamp::Timestamp;

verus! {

/// `keys` names each key of `records` once, and `read` is what `decode` makes of
/// the texts under them.
pub open spec fn reads_keys<D: Fn(&String) -> Option<Bounty>>(
    records: Map<String, String>,
    decode: D,
    keys: Seq<String>,
    read: Seq<Option<Bounty>>,
) -> bool {
    &&& names_each_key(records, keys)
    &&& read.len() == keys.len()
    &&& forall|i: int|
        0 <= i < keys.len() ==> records.contains_key(keys[i]) && call_ensures(
            decode,
            (&records[keys[i]],),
            #[trigger] read[i],
        )
}

/// The keys under which the texts of a reading stand.
pub(crate) proof fn keys_of_reading<D: Fn(&String) -> Option<Bounty>>(
    records: Map<String, String>,
    decode: D,
    raws: Seq<String>,
    read: Seq<Option<Bounty>>,
) -> (keys: Seq<String>)
    requires
        is_reading(records, decode, raws, read),
    ensures
        reads_keys(records, decode, keys, read),
{
    let keys = choose|keys: Seq<String>| #[trigger]
        names_each_key(records, keys) && raws == keys.map_values(|key: String| records[key]);
    assert forall|i: int| 0 <= i < keys.len() implies records.contains_key(keys[i])
        && call_ensures(decode, (&records[keys[i]],), #[trigger] read[i]) by {
        assert(keys.to_set().contains(keys[i]));
        assert(raws[i] == records[keys[i]]);
    }
    keys
}

/// The reading that a page was made from, and the keys of its texts.
pub(crate) proof fn reading_of<D: Fn(&String) -> Option<Bounty>>(
    page: BountyPage,
    records: Map<String, String>,
    decode: D,
    keep: spec_fn(Bounty) -> bool,
    limit: i64,
    cursor: Option<Timestamp>,
) -> (found: (Seq<String>, Seq<Option<Bounty>>))
    requires
        lists(page, records, decode, keep, limit, cursor),
    ensures
        reads_keys(records, decode, found.0, found.1),
        is_page(page, selected(readable(found.1), keep, cursor), limit),
{
    let (raws, read) = choose|raws: Seq<String>, read: Seq<Option<Bounty>>| #[trigger]
        is_reading(records, decode, raws, read) && is_page(
            page,
            selected(readable(read), keep, cursor),
            limit,
        );
    (keys_of_reading(records, decode, raws, read), read)
}

/// A bounty is readable exactly where one of the readings is that bounty.
proof fn readable_holds(read: Seq<Option<Bounty>>, bounty: Bounty)
    ensures
        readable(read).contains(bounty) <==> read.contains(Some(bounty)),
    decreases read.len(),
{
    if read.len() > 0 {
        let rest = read.drop_last();
        readable_holds(rest, bounty);
        assert(read == rest.push(read.last()));
        if readable(read).contains(bounty) {
            let k = choose|k: int| 0 <= k < readable(read).len() && readable(read)[k] == bounty;
            if k < readable(rest).len() {
                assert(readable(rest)[k] == bounty);
                let i = choose|i: int| 0 <= i < rest.len() && rest[i] == Some(bounty);
                assert(read[i] == Some(bounty));
            } else {
                assert(read[read.len() - 1] == Some(bounty));
            }
        }
        if read.contains(Some(bounty)) {
            let i = choose|i: int| 0 <= i < read.len() && read[i] == Some(bounty);
            if i < rest.len() {
                assert(rest[i] == Some(bounty));
                let k = choose|k: int| 0 <= k < readable(rest).len() && readable(rest)[k] == bounty;
                assert(readable(read)[k] == bounty);
            } else {
                assert(readable(read).last() == bounty);
            }
        }
    }
}

/// What taking out one reading does to the readable bounties.
proof fn readable_without(read: Seq<Option<Bounty>>, i: int)
    requires
        0 <= i < read.len(),
    ensures
        read[i] is None ==> readable(read.remove(i)) == readable(read),
        read[i] matches Some(bounty) ==> readable(read).to_multiset() == readable(
            read.remove(i),
        ).to_multiset().insert(bounty),
    decreases read.len(),
{
    broadcast use vstd::seq_lib::group_to_multiset_ensures;

    let rest = read.drop_last();
    if i == read.len() - 1 {
        assert(read.remove(i) == rest);
    } else {
        readable_without(rest, i);
        assert(read.remove(i).drop_last() == rest.remove(i));
        assert(read.remove(i).last() == read.last());
        if let Some(bounty) = read[i] {
            assert(readable(read).to_multiset() =~= readable(
                read.remove(i),
            ).to_multiset().insert(bounty));
        }
    }
}

/// Every bounty on a page was let in by the filter and the cursor, and reads
/// from a record of the store.
pub proof fn listed_bounty_is_recorded<D: Fn(&String) -> Option<Bounty>>(
    page: BountyPage,
    records: Map<String, String>,
    decode: D,
    keep: spec_fn(Bounty) -> bool,
    limit: i64,
    cursor: Option<Timestamp>,
    i: int,
)
    requires
        lists(page, records, decode, keep, limit, cursor),
        0 <= i < page.bounties@.len(),
    ensures
        keep(page.bounties@[i]),
        admits(cursor, page.bounties@[i]),
        exists|key: String| #[trigger]
            records.contains_key(key) && call_ensures(
                decode,
                (&records[key],),
                Some(page.bounties@[i]),
            ),
{
    broadcast use vstd::seq_lib::group_to_multiset_ensures;

    let (keys, read) = reading_of(page, records, decode, keep, limit, cursor);
    let candidates = selected(readable(read), keep, cursor);
    let sorted = newest_first(candidates);
    let bounty = page.bounties@[i];
    newest_first_arranges(candidates);
    assert(sorted[i] == bounty);
    assert(sorted.to_multiset().count(bounty) > 0);
    assert(candidates.contains(bounty));
    let k = choose|k: int| 0 <= k < candidates.len() && candidates[k] == bounty;
    let n = reading_of_selected(read, keep, cursor, k);
    assert(records.contains_key(keys[n]));
}

/// A record that reads as a bounty which the filter and the cursor let in is on
/// the page, unless the page is full of bounties that are no older.
pub proof fn recorded_bounty_is_listed<D: Fn(&String) -> Option<Bounty>>(
    page: BountyPage,
    records: Map<String, String>,
    decode: D,
    keep: spec_fn(Bounty) -> bool,
    limit: i64,
    cursor: Option<Timestamp>,
    key: String,
    bounty: Bounty,
)
    requires
        lists(page, records, decode, keep, limit, cursor),
        records.contains_key(key),
        forall|out: Option<Bounty>|
            call_ensures(decode, (&records[key],), out) ==> out == Some(bounty),
        keep(bounty),
        admits(cursor, bounty),
    ensures
        page.bounties@.contains(bounty) || {
            &&& page.bounties@.len() == limit
            &&& forall|i: int|
                0 <= i < page.bounties@.len() ==> !(#[trigger] page.bounties@[i]).created_at.before(
                    bounty.created_at,
                )
        },
{
    broadcast use vstd::seq_lib::group_to_multiset_ensures;

    let (keys, read) = reading_of(page, records, decode, keep, limit, cursor);
    let p = |bounty: Bounty| keep(bounty) && admits(cursor, bounty);
    let candidates = selected(readable(read), keep, cursor);
    let sorted = newest_first(candidates);
    let entries = page_entries(sorted, limit);
    newest_first_arranges(candidates);
    assert(keys.to_set().contains(key));
    let n = choose|n: int| 0 <= n < keys.len() && keys[n] == key;
    assert(read[n] == Some(bounty));
    readable_holds(read, bounty);
    let m = choose|m: int| 0 <= m < readable(read).len() && readable(read)[m] == bounty;
    readable(read).lemma_filter_contains(p, m);
    assert(candidates.to_multiset().count(bounty) > 0);
    assert(sorted.contains(bounty));
    let k = choose|k: int| 0 <= k < sorted.len() && sorted[k] == bounty;
    page_holds_the_newest(candidates, limit);
    if k < entries.len() {
        assert(entries[k] == bounty);
    } else {
        let left_out = sorted.skip(entries.len() as int);
        assert(left_out[k - entries.len()] == bounty);
    }
}

/// Whatever a page with a cursor leaves out, the next page can hold, unless it
/// shares the cursor's instant.
pub proof fn cursor_reaches_what_was_left_out<D: Fn(&String) -> Option<Bounty>>(
    page: BountyPage,
    records: Map<String, String>,
    decode: D,
    keep: spec_fn(Bounty) -> bool,
    limit: i64,
    cursor: Option<Timestamp>,
    key: String,
    bounty: Bounty,
)
    requires
        lists(page, records, decode, keep, limit, cursor),
        page.next_cursor is Some,
        records.contains_key(key),
        forall|out: Option<Bounty>|
            call_ensures(decode, (&records[key],), out) ==> out == Some(bounty),
        keep(bounty),
        admits(cursor, bounty),
        bounty.created_at != page.next_cursor->Some_0 || page.bounties@.contains(bounty),
    ensures
        page.bounties@.contains(bounty) || admits(page.next_cursor, bounty),
{
    let (keys, read) = reading_of(page, records, decode, keep, limit, cursor);
    recorded_bounty_is_listed(page, records, decode, keep, limit, cursor, key, bounty);
    cursor_is_the_end_of_the_page(selected(readable(read), keep, cursor), limit);
    if !page.bounties@.contains(bounty) {
        assert(!page.bounties@[page.bounties@.len() - 1].created_at.before(bounty.created_at));
    }
}

/// A page of a shared store holds no more bounties than a limit that is not
/// negative.
pub proof fn listing_keeps_to_its_limit<D: Fn(&String) -> Option<Bounty>>(
    page: BountyPage,
    db: SharedDb,
    decode: D,
    keep: spec_fn(Bounty) -> bool,
    limit: i64,
    cursor: Option<Timestamp>,
)
    requires
        lists_shared(page, db, decode, keep, limit, cursor),
        limit >= 0,
    ensures
        page.bounties@.len() <= limit,
{
    let guard = choose|guard: RwLockReadGuard<'_, DbStore>|
        #![trigger read_guard_store(guard)]
        read_guard_lock(guard) == *db && lists(
            page,
            read_guard_store(guard).records@,
            decode,
            keep,
            limit,
            cursor,
        );
    let (keys, read) = reading_of(
        page,
        read_guard_store(guard).records@,
        decode,
        keep,
        limit,
        cursor,
    );
    page_keeps_to_its_limit(selected(readable(read), keep, cursor), limit);
}

/// A record that cannot be read might as well not be there.
pub proof fn unreadable_record_is_passed_over<D: Fn(&String) -> Option<Bounty>>(
    page: BountyPage,
    records: Map<String, String>,
    decode: D,
    keep: spec_fn(Bounty) -> bool,
    limit: i64,
    cursor: Option<Timestamp>,
    key: String,
)
    requires
        lists(page, records, decode, keep, limit, cursor),
        records.contains_key(key),
        forall|out: Option<Bounty>| call_ensures(decode, (&records[key],), out) ==> out is None,
    ensures
        lists(page, records.remove(key), decode, keep, limit, cursor),
{
    let (keys, read) = reading_of(page, records, decode, keep, limit, cursor);
    let fewer = records.remove(key);
    assert(keys.to_set().contains(key));
    let n = choose|n: int| 0 <= n < keys.len() && keys[n] == key;
    let keys_left = keys.remove(n);
    let read_left = read.remove(n);
    let raws_left = keys_left.map_values(|key: String| fewer[key]);
    assert(read[n] is None);
    readable_without(read, n);
    keys_without(keys, n);
    assert(names_each_key(fewer, keys_left)) by {
        assert(keys_left.to_set() =~= fewer.dom());
    }
    assert(is_walk(fewer, raws_left));
    assert forall|i: int| 0 <= i < raws_left.len() implies call_ensures(
        decode,
        (&raws_left[i],),
        #[trigger] read_left[i],
    ) by {
        let j = if i < n { i } else { i + 1 };
        assert(keys_left[i] == keys[j]);
        assert(read_left[i] == read[j]);
        assert(keys[j] != key);
    }
    assert(is_reading(fewer, decode, raws_left, read_left));
}

/// Records that cannot be read might as well not be there, however many: a page
/// of `more` is a page of `records`, where `more` adds only such records.
pub proof fn unreadable_records_are_passed_over<D: Fn(&String) -> Option<Bounty>>(
    page: BountyPage,
    records: Map<String, String>,
    more: Map<String, String>,
    decode: D,
    keep: spec_fn(Bounty) -> bool,
    limit: i64,
    cursor: Option<Timestamp>,
)
    requires
        lists(page, more, decode, keep, limit, cursor),
        records.submap_of(more),
        forall|key: String, out: Option<Bounty>|
            more.contains_key(key) && !records.contains_key(key) && call_ensures(
                decode,
                (&more[key],),
                out,
            ) ==> out is None,
    ensures
        lists(page, records, decode, keep, limit, cursor),
    decreases more.dom().len(),
{
    if exists|key: String| more.contains_key(key) && !records.contains_key(key) {
        let key = choose|key: String| more.contains_key(key) && !records.contains_key(key);
        let (keys, read) = reading_of(page, more, decode, keep, limit, cursor);
        let fewer = more.remove(key);
        keys.lemma_cardinality_of_set();
        assert(more.dom().finite());
        assert(fewer.dom() =~= more.dom().remove(key));
        unreadable_record_is_passed_over(page, more, decode, keep, limit, cursor, key);
        unreadable_records_are_passed_over(page, records, fewer, decode, keep, limit, cursor);
    } else {
        assert forall|key: String| more.contains_key(key) implies #[trigger] records.contains_key(
            key,
        ) by {}
        assert forall|key: String| #[trigger] records.contains_key(key) implies more.contains_key(
            key,
        ) && more[key] == records[key] by {
            assert(records.dom().contains(key));
        }
        assert(records.dom() =~= more.dom());
        assert(records =~= more);
    }
}

/// Records that cannot be read do not change a listing: the page is the same with
/// them and without, where each text reads in one way and no two different
/// bounties that the listing lets in share an instant.
pub proof fn unreadable_records_change_nothing<D: Fn(&String) -> Option<Bounty>>(
    without: BountyPage,
    with: BountyPage,
    records: Map<String, String>,
    more: Map<String, String>,
    decode: D,
    value: spec_fn(String) -> Option<Bounty>,
    keep: spec_fn(Bounty) -> bool,
    limit: i64,
    cursor: Option<Timestamp>,
)
    requires
        lists(without, records, decode, keep, limit, cursor),
        lists(with, more, decode, keep, limit, cursor),
        records.submap_of(more),
        forall|key: String|
            more.contains_key(key) && !records.contains_key(key) ==> #[trigger] value(
                more[key],
            ) is None,
        reads_one_way(decode, value),
        instants_tell_apart(records, value, keep, cursor),
    ensures
        without.bounties@ == with.bounties@,
        without.next_cursor == with.next_cursor,
{
    unreadable_records_are_passed_over(with, records, more, decode, keep, limit, cursor);
    listing_is_determined(without, with, records, decode, value, keep, limit, cursor);
}

/// A page that was asked for with the cursor of another holds only bounties that
/// are older than all of that one, and its own cursor lies further back. This
/// holds for any limit and whatever became of the store in between.
pub proof fn page_behind_a_cursor_is_older<D: Fn(&String) -> Option<Bounty>>(
    first: BountyPage,
    second: BountyPage,
    records: Map<String, String>,
    later: Map<String, String>,
    decode: D,
    keep: spec_fn(Bounty) -> bool,
    limit: i64,
    later_limit: i64,
    cursor: Option<Timestamp>,
)
    requires
        lists(first, records, decode, keep, limit, cursor),
        first.next_cursor is Some,
        lists(second, later, decode, keep, later_limit, first.next_cursor),
    ensures
        forall|i: int, j: int|
            #![trigger first.bounties@[i], second.bounties@[j]]
            0 <= i < first.bounties@.len() && 0 <= j < second.bounties@.len()
                ==> second.bounties@[j].created_at.before(first.bounties@[i].created_at),
        second.next_cursor matches Some(at) ==> at.before(first.next_cursor->Some_0),
{
    let next = first.next_cursor->Some_0;
    let (keys, read) = reading_of(first, records, decode, keep, limit, cursor);
    let candidates = selected(readable(read), keep, cursor);
    cursor_is_the_end_of_the_page(candidates, limit);
    page_holds_the_newest(candidates, limit);
    let end = first.bounties@.len() - 1;
    assert forall|j: int|
        #![trigger second.bounties@[j]]
        0 <= j < second.bounties@.len() implies second.bounties@[j].created_at.before(next) by {
        listed_bounty_is_recorded(second, later, decode, keep, later_limit, Some(next), j);
    }
    assert forall|i: int, j: int|
        #![trigger first.bounties@[i], second.bounties@[j]]
        0 <= i < first.bounties@.len() && 0 <= j < second.bounties@.len()
            implies second.bounties@[j].created_at.before(first.bounties@[i].created_at) by {
        assert(first.bounties@[end].created_at == next);
        assert(second.bounties@[j].created_at.before(next));
        if i < end {
            assert(!first.bounties@[i].created_at.before(first.bounties@[end].created_at));
        }
    }
    let (later_keys, later_read) = reading_of(
        second,
        later,
        decode,
        keep,
        later_limit,
        Some(next),
    );
    cursor_is_the_end_of_the_page(selected(readable(later_read), keep, Some(next)), later_limit);
}

/// Taking one key out of different keys.
proof fn keys_without(keys: Seq<String>, n: int)
    requires
        keys.no_duplicates(),
        0 <= n < keys.len(),
    ensures
        keys.remove(n).no_duplicates(),
        keys.remove(n).to_set() == keys.to_set().remove(keys[n]),
{
    let left = keys.remove(n);
    assert forall|key: String| left.to_set().contains(key) <==> keys.to_set().remove(
        keys[n],
    ).contains(key) by {
        if left.contains(key) {
            let i = choose|i: int| 0 <= i < left.len() && left[i] == key;
            assert(keys[if i < n { i } else { i + 1 }] == key);
        }
        if keys.contains(key) && key != keys[n] {
            let j = choose|j: int| 0 <= j < keys.len() && keys[j] == key;
            assert(left[if j < n { j } else { j - 1 }] == key);
        }
    }
    assert(left.to_set() =~= keys.to_set().remove(keys[n]));
}

/// The readable bounties do not depend on the order of the keys.
proof fn readable_from_any_order(
    first: Seq<String>,
    second: Seq<String>,
    value: spec_fn(String) -> Option<Bounty>,
)
    requires
        first.no_duplicates(),
        second.no_duplicates(),
        first.to_set() == second.to_set(),
    ensures
        readable(first.map_values(value)).to_multiset() == readable(
            second.map_values(value),
        ).to_multiset(),
    decreases first.len(),
{
    if first.len() == 0 {
        if second.len() > 0 {
            assert(second.to_set().contains(second[0]));
            assert(first.to_set().contains(second[0]));
        }
        assert(first.map_values(value) =~= second.map_values(value));
    } else {
        let n = first.len() - 1;
        let key = first[n];
        assert(first.to_set().contains(key));
        assert(second.to_set().contains(key));
        let m = choose|m: int| 0 <= m < second.len() && second[m] == key;
        keys_without(first, n);
        keys_without(second, m);
        readable_from_any_order(first.remove(n), second.remove(m), value);
        readable_without(first.map_values(value), n);
        readable_without(second.map_values(value), m);
        assert(first.map_values(value).remove(n) =~= first.remove(n).map_values(value));
        assert(second.map_values(value).remove(m) =~= second.remove(m).map_values(value));
    }
}

/// `decode` reads each text in one way, as `value` says.
pub open spec fn reads_one_way<D: Fn(&String) -> Option<Bounty>>(
    decode: D,
    value: spec_fn(String) -> Option<Bounty>,
) -> bool {
    forall|raw: String, out: Option<Bounty>|
        call_ensures(decode, (&raw,), out) ==> out == value(raw)
}

/// The record under `key` reads as a bounty that the filter and the cursor let
/// in.
pub open spec fn lets_in(
    records: Map<String, String>,
    value: spec_fn(String) -> Option<Bounty>,
    keep: spec_fn(Bounty) -> bool,
    cursor: Option<Timestamp>,
    key: String,
) -> bool {
    &&& records.contains_key(key)
    &&& value(records[key]) matches Some(bounty) && keep(bounty) && admits(cursor, bounty)
}

/// No two different bounties that the filter and the cursor let in share an
/// instant.
pub open spec fn instants_tell_apart(
    records: Map<String, String>,
    value: spec_fn(String) -> Option<Bounty>,
    keep: spec_fn(Bounty) -> bool,
    cursor: Option<Timestamp>,
) -> bool {
    forall|a: String, b: String|
        #![trigger value(records[a]), value(records[b])]
        lets_in(records, value, keep, cursor, a) && lets_in(records, value, keep, cursor, b)
            && value(records[a])->Some_0.created_at == value(records[b])->Some_0.created_at
            ==> value(records[a]) == value(records[b])
}

/// What the texts under `keys` read as.
pub open spec fn values_under(
    records: Map<String, String>,
    value: spec_fn(String) -> Option<Bounty>,
    keys: Seq<String>,
) -> Seq<Option<Bounty>> {
    keys.map_values(|key: String| value(records[key]))
}

/// A reading lets in the same bounties as the values of the keys do, in whatever
/// order these are named.
pub(crate) proof fn reading_holds_the_values<D: Fn(&String) -> Option<Bounty>>(
    records: Map<String, String>,
    decode: D,
    value: spec_fn(String) -> Option<Bounty>,
    keep: spec_fn(Bounty) -> bool,
    cursor: Option<Timestamp>,
    read_keys: Seq<String>,
    read: Seq<Option<Bounty>>,
    keys: Seq<String>,
)
    requires
        reads_keys(records, decode, read_keys, read),
        reads_one_way(decode, value),
        names_each_key(records, keys),
    ensures
        selected(readable(read), keep, cursor).to_multiset() == selected(
            readable(values_under(records, value, keys)),
            keep,
            cursor,
        ).to_multiset(),
{
    let p = |bounty: Bounty| keep(bounty) && admits(cursor, bounty);
    let values = values_under(records, value, keys);
    assert(read =~= values_under(records, value, read_keys)) by {
        assert forall|i: int| 0 <= i < read.len() implies read[i] == values_under(
            records,
            value,
            read_keys,
        )[i] by {
            assert(call_ensures(decode, (&records[read_keys[i]],), read[i]));
        }
    }
    readable_from_any_order(read_keys, keys, |key: String| value(records[key]));
    let chosen1 = selected(readable(read), keep, cursor);
    let chosen2 = selected(readable(values), keep, cursor);
    assert forall|x: Bounty| #[trigger]
        chosen1.to_multiset().count(x) == chosen2.to_multiset().count(x) by {
        count_of_filtered(readable(read), p, x);
        count_of_filtered(readable(values), p, x);
    }
    assert(chosen1.to_multiset() =~= chosen2.to_multiset());
}

/// Two readings of the same records let in the same bounties.
pub(crate) proof fn readings_hold_the_same<D: Fn(&String) -> Option<Bounty>>(
    records: Map<String, String>,
    decode: D,
    value: spec_fn(String) -> Option<Bounty>,
    keep: spec_fn(Bounty) -> bool,
    cursor: Option<Timestamp>,
    keys1: Seq<String>,
    read1: Seq<Option<Bounty>>,
    keys2: Seq<String>,
    read2: Seq<Option<Bounty>>,
)
    requires
        reads_keys(records, decode, keys1, read1),
        reads_keys(records, decode, keys2, read2),
        reads_one_way(decode, value),
    ensures
        selected(readable(read1), keep, cursor).to_multiset() == selected(
            readable(read2),
            keep,
            cursor,
        ).to_multiset(),
{
    reading_holds_the_values(records, decode, value, keep, cursor, keys1, read1, keys1);
    reading_holds_the_values(records, decode, value, keep, cursor, keys2, read2, keys1);
}

/// Where the instants tell the bounties of a store apart, they tell those of a
/// reading apart.
pub(crate) proof fn selection_tells_apart<D: Fn(&String) -> Option<Bounty>>(
    records: Map<String, String>,
    decode: D,
    value: spec_fn(String) -> Option<Bounty>,
    keep: spec_fn(Bounty) -> bool,
    cursor: Option<Timestamp>,
    keys: Seq<String>,
    read: Seq<Option<Bounty>>,
)
    requires
        reads_keys(records, decode, keys, read),
        reads_one_way(decode, value),
        instants_tell_apart(records, value, keep, cursor),
    ensures
        ({
            let chosen = selected(readable(read), keep, cursor);
            forall|i: int, j: int|
                #![trigger chosen[i], chosen[j]]
                0 <= i < chosen.len() && 0 <= j < chosen.len() && chosen[i].created_at
                    == chosen[j].created_at ==> chosen[i] == chosen[j]
        }),
{
    let chosen = selected(readable(read), keep, cursor);
    assert forall|i: int, j: int|
        #![trigger chosen[i], chosen[j]]
        0 <= i < chosen.len() && 0 <= j < chosen.len() && chosen[i].created_at
            == chosen[j].created_at implies chosen[i] == chosen[j] by {
        let n = reading_of_selected(read, keep, cursor, i);
        let m = reading_of_selected(read, keep, cursor, j);
        assert(value(records[keys[n]]) == read[n]);
        assert(value(records[keys[m]]) == read[m]);
        assert(lets_in(records, value, keep, cursor, keys[n]));
        assert(lets_in(records, value, keep, cursor, keys[m]));
    }
}

/// One store gives one listing: where each text reads in one way and no two
/// different bounties that the listing lets in share an instant, two listings of
/// the same records are the same, in whatever order the records are walked.
pub proof fn listing_is_determined<D: Fn(&String) -> Option<Bounty>>(
    first: BountyPage,
    second: BountyPage,
    records: Map<String, String>,
    decode: D,
    value: spec_fn(String) -> Option<Bounty>,
    keep: spec_fn(Bounty) -> bool,
    limit: i64,
    cursor: Option<Timestamp>,
)
    requires
        lists(first, records, decode, keep, limit, cursor),
        lists(second, records, decode, keep, limit, cursor),
        reads_one_way(decode, value),
        instants_tell_apart(records, value, keep, cursor),
    ensures
        first.bounties@ == second.bounties@,
        first.next_cursor == second.next_cursor,
{
    let (keys1, read1) = reading_of(first, records, decode, keep, limit, cursor);
    let (keys2, read2) = reading_of(second, records, decode, keep, limit, cursor);
    readings_hold_the_same(records, decode, value, keep, cursor, keys1, read1, keys2, read2);
    selection_tells_apart(records, decode, value, keep, cursor, keys1, read1);
    order_of_arrival_is_immaterial(
        selected(readable(read1), keep, cursor),
        selected(readable(read2), keep, cursor),
    );
}

/// `whole` is all that a listing can give, newest first, on one page.
pub open spec fn is_whole_listing<D: Fn(&String) -> Option<Bounty>>(
    whole: Seq<Bounty>,
    records: Map<String, String>,
    decode: D,
    keep: spec_fn(Bounty) -> bool,
    cursor: Option<Timestamp>,
) -> bool {
    exists|raws: Seq<String>, read: Seq<Option<Bounty>>| #[trigger]
        is_reading(records, decode, raws, read) && whole == newest_first(
            selected(readable(read), keep, cursor),
        )
}

/// `pages` are the pages of a listing from `cursor` to its end, each asked for
/// with the cursor that the page before it named.
pub open spec fn are_pages<D: Fn(&String) -> Option<Bounty>>(
    pages: Seq<BountyPage>,
    records: Map<String, String>,
    decode: D,
    keep: spec_fn(Bounty) -> bool,
    limit: i64,
    cursor: Option<Timestamp>,
) -> bool
    decreases pages.len(),
{
    &&& pages.len() > 0
    &&& lists(pages[0], records, decode, keep, limit, cursor)
    &&& match pages[0].next_cursor {
        None => pages.len() == 1,
        Some(next) => are_pages(pages.drop_first(), records, decode, keep, limit, Some(next)),
    }
}

/// The bounties of `pages`, page behind page.
pub open spec fn on_pages(pages: Seq<BountyPage>) -> Seq<Bounty>
    decreases pages.len(),
{
    if pages.len() == 0 {
        Seq::empty()
    } else {
        pages[0].bounties@ + on_pages(pages.drop_first())
    }
}

/// Asking a store for page after page gives its whole listing, newest first and
/// each bounty once, where each text reads in one way and no page ends between
/// two bounties of one instant. Where no two different bounties share an instant,
/// the order is that of the whole listing too.
pub proof fn pages_give_the_whole_listing<D: Fn(&String) -> Option<Bounty>>(
    pages: Seq<BountyPage>,
    whole: Seq<Bounty>,
    records: Map<String, String>,
    decode: D,
    value: spec_fn(String) -> Option<Bounty>,
    keep: spec_fn(Bounty) -> bool,
    limit: i64,
    cursor: Option<Timestamp>,
)
    requires
        are_pages(pages, records, decode, keep, limit, cursor),
        is_whole_listing(whole, records, decode, keep, cursor),
        reads_one_way(decode, value),
        breaks_cleanly(whole, limit),
    ensures
        is_newest_first(on_pages(pages)),
        on_pages(pages).to_multiset() == whole.to_multiset(),
        instants_tell_apart(records, value, keep, cursor) ==> on_pages(pages) == whole,
    decreases pages.len(),
{
    let (raws0, read0) = choose|raws: Seq<String>, read: Seq<Option<Bounty>>| #[trigger]
        is_reading(records, decode, raws, read) && whole == newest_first(
            selected(readable(read), keep, cursor),
        );
    let keys0 = keys_of_reading(records, decode, raws0, read0);
    let page = pages[0];
    let (keys, read) = reading_of(page, records, decode, keep, limit, cursor);
    let bounties = readable(read);
    let sorted = newest_first(selected(bounties, keep, cursor));
    newest_first_arranges(selected(bounties, keep, cursor));
    newest_first_arranges(selected(readable(read0), keep, cursor));
    readings_hold_the_same(records, decode, value, keep, cursor, keys, read, keys0, read0);
    newest_first_fixes_the_instants(whole, sorted);
    instants_fix_the_breaks(whole, sorted, limit);
    match page.next_cursor {
        None => {
            assert(on_pages(pages.drop_first()) =~= Seq::empty());
            assert(on_pages(pages) =~= sorted);
        },
        Some(next) => {
            next_page_continues(bounties, keep, cursor, limit);
            let rest = sorted.skip(limit as int);
            let following = on_pages(pages.drop_first());
            let raws = keys.map_values(|key: String| records[key]);
            assert(is_walk(records, raws));
            assert(is_reading(records, decode, raws, read));
            assert(is_whole_listing(rest, records, decode, keep, Some(next)));
            pages_give_the_whole_listing(
                pages.drop_first(),
                rest,
                records,
                decode,
                value,
                keep,
                limit,
                Some(next),
            );
            assert(sorted =~= page.bounties@ + rest);
            vstd::seq_lib::lemma_multiset_commutative(page.bounties@, rest);
            vstd::seq_lib::lemma_multiset_commutative(page.bounties@, following);
            older_behind_newer(page.bounties@, rest, following);
        },
    }
    if instants_tell_apart(records, value, keep, cursor) {
        selection_tells_apart(records, decode, value, keep, cursor, keys0, read0);
        let given = on_pages(pages);
        assert forall|i: int, j: int|
            #![trigger whole[i], whole[j]]
            0 <= i < whole.len() && 0 <= j < whole.len() && whole[i].created_at
                == whole[j].created_at implies whole[i] == whole[j] by {
            let chosen = selected(readable(read0), keep, cursor);
            let n = place_in(chosen, whole, i);
            let m = place_in(chosen, whole, j);
            assert(chosen[n] == chosen[m]);
        }
        order_of_arrival_is_immaterial(whole, given);
        newest_first_arranges(whole);
        newest_first_arranges(given);
        arrangement_is_unique(newest_first(whole), whole, whole);
        arrangement_is_unique(newest_first(given), given, given);
    }
}

/// Where a bounty of one sequence stands in another with the same bounties.
pub(crate) proof fn place_in(first: Seq<Bounty>, second: Seq<Bounty>, i: int) -> (n: int)
    requires
        first.to_multiset() == second.to_multiset(),
        0 <= i < second.len(),
    ensures
        0 <= n < first.len(),
        first[n] == second[i],
{
    broadcast use vstd::seq_lib::group_to_multiset_ensures;

    assert(second.contains(second[i]));
    assert(second.to_multiset().count(second[i]) > 0);
    assert(first.contains(second[i]));
    choose|n: int| 0 <= n < first.len() && first[n] == second[i]
}

/// Bounties may be put in another newest-first order behind a page.
proof fn older_behind_newer(page: Seq<Bounty>, rest: Seq<Bounty>, following: Seq<Bounty>)
    requires
        is_newest_first(page + rest),
        is_newest_first(following),
        rest.to_multiset() == following.to_multiset(),
    ensures
        is_newest_first(page + following),
{
    let given = page + following;
    assert forall|i: int, j: int|
        #![trigger given[i], given[j]]
        0 <= i < j < given.len() implies !given[i].created_at.before(given[j].created_at) by {
        if j < page.len() {
            assert(!(page + rest)[i].created_at.before((page + rest)[j].created_at));
        } else if i < page.len() {
            let k = place_in(rest, following, j - page.len());
            assert((page + rest)[page.len() + k] == given[j]);
            assert(!(page + rest)[i].created_at.before(
                (page + rest)[page.len() + k].created_at,
            ));
        } else {
            assert(!following[i - page.len()].created_at.before(
                following[j - page.len()].created_at,
            ));
        }
    }
}

/// Which reading a selected bounty is.
pub(crate) proof fn reading_of_selected(
    read: Seq<Option<Bounty>>,
    keep: spec_fn(Bounty) -> bool,
    cursor: Option<Timestamp>,
    i: int,
) -> (n: int)
    requires
        0 <= i < selected(readable(read), keep, cursor).len(),
    ensures
        0 <= n < read.len(),
        read[n] == Some(selected(readable(read), keep, cursor)[i]),
        keep(selected(readable(read), keep, cursor)[i]),
        admits(cursor, selected(readable(read), keep, cursor)[i]),
{
    let p = |bounty: Bounty| keep(bounty) && admits(cursor, bounty);
    let bounty = selected(readable(read), keep, cursor)[i];
    readable(read).lemma_filter_pred(p, i);
    assert(readable(read).filter(p).contains(bounty));
    readable(read).lemma_filter_contains_rev(p, bounty);
    readable_holds(read, bounty);
    choose|n: int| 0 <= n < read.len() && read[n] == Some(bounty)
}

} // verus!
