//! What holds of asking a store for page after page: how many pages there are,
//! and what they give where every bounty has an instant of its own.
use vstd::prelude::*;

use crate::db::{is_reading, is_walk, lists, readable, Bounty, BountyPage};
use crate::listing_laws::{
    are_pages, instants_tell_apart, is_whole_listing, keys_of_reading, lets_in, on_pages,
    pages_give_the_whole_listing, reading_of, reading_of_selected, readings_hold_the_same,
    reads_keys, reads_one_way,
};
use crate::paging::{
    admits, newest_first, newest_first_arranges, overflows, page_cursor, page_entries, selected,
    selected_push,
};
use crate::paging_laws::{
    breaks_cleanly, instants, instants_fix_the_breaks, newest_first_fixes_the_instants,
    next_page_continues, next_page_has_fewer, same_bounties_have_same_instants,
};
use crate::timestamp::Timestamp;

verus! {

/// How many pages of `limit` it takes to hold `n` bounties: `n / limit`, rounded
/// up, and one where there is nothing to hold.
pub open spec fn page_count(n: nat, limit: i64) -> int {
    if n == 0 {
        1
    } else {
        (n + limit - 1) / limit as int
    }
}

/// No two records read as bounties that the filter and the cursor let in and that
/// share an instant.
pub open spec fn instants_differ(
    records: Map<String, String>,
    value: spec_fn(String) -> Option<Bounty>,
    keep: spec_fn(Bounty) -> bool,
    cursor: Option<Timestamp>,
) -> bool {
    forall|a: String, b: String|
        #![trigger value(records[a]), value(records[b])]
        a != b && lets_in(records, value, keep, cursor, a) && lets_in(
            records,
            value,
            keep,
            cursor,
            b,
        ) ==> value(records[a])->Some_0.created_at != value(records[b])->Some_0.created_at
}

/// Every bounty is older than those before it.
pub open spec fn is_strictly_newest_first(bounties: Seq<Bounty>) -> bool {
    forall|i: int, j: int|
        #![trigger bounties[i], bounties[j]]
        0 <= i < j < bounties.len() ==> bounties[j].created_at.before(bounties[i].created_at)
}

/// `pages` were asked for one after the other from `cursor` on, each with the
/// cursor that the page before it named. The last may name one too.
pub open spec fn follow_each_other<D: Fn(&String) -> Option<Bounty>>(
    pages: Seq<BountyPage>,
    records: Map<String, String>,
    decode: D,
    keep: spec_fn(Bounty) -> bool,
    limit: i64,
    cursor: Option<Timestamp>,
) -> bool
    decreases pages.len(),
{
    &&& pages.len() > 0
    &&& lists(pages[0], records, decode, keep, limit, cursor)
    &&& pages.len() > 1 ==> {
        &&& pages[0].next_cursor is Some
        &&& follow_each_other(
            pages.drop_first(),
            records,
            decode,
            keep,
            limit,
            pages[0].next_cursor,
        )
    }
}

/// One page more for `limit` bounties more, and no fewer pages for more bounties.
proof fn page_count_steps(n: nat, fewer: nat, limit: i64)
    requires
        limit > 0,
    ensures
        page_count(n, limit) >= 1,
        n <= limit ==> page_count(n, limit) == 1,
        n > limit ==> page_count(n, limit) == 1 + page_count((n - limit) as nat, limit),
        fewer <= n ==> page_count(fewer, limit) <= page_count(n, limit),
{
    let d = limit as int;
    if n > 0 {
        vstd::arithmetic::div_mod::lemma_div_plus_one(n - 1, d);
        vstd::arithmetic::div_mod::lemma_div_pos_is_pos(n - 1, d);
        if n <= limit {
            vstd::arithmetic::div_mod::lemma_basic_div(n - 1, d);
        } else {
            assert(d + (n - limit) - 1 == n - 1);
        }
        if 0 < fewer <= n {
            vstd::arithmetic::div_mod::lemma_div_is_ordered(fewer + limit - 1, n + limit - 1, d);
        }
    }
}

/// A whole listing and the reading behind a page are of one length and break into
/// pages alike.
proof fn page_reading_matches<D: Fn(&String) -> Option<Bounty>>(
    page: BountyPage,
    whole: Seq<Bounty>,
    records: Map<String, String>,
    decode: D,
    value: spec_fn(String) -> Option<Bounty>,
    keep: spec_fn(Bounty) -> bool,
    limit: i64,
    cursor: Option<Timestamp>,
) -> (found: (Seq<String>, Seq<Option<Bounty>>))
    requires
        lists(page, records, decode, keep, limit, cursor),
        is_whole_listing(whole, records, decode, keep, cursor),
        reads_one_way(decode, value),
    ensures
        is_reading(records, decode, found.0, found.1),
        ({
            let sorted = newest_first(selected(readable(found.1), keep, cursor));
            &&& page.bounties@ == page_entries(sorted, limit)
            &&& page.next_cursor == page_cursor(sorted, limit)
            &&& sorted.len() == whole.len()
            &&& sorted.len() == selected(readable(found.1), keep, cursor).len()
            &&& breaks_cleanly(whole, limit) ==> breaks_cleanly(sorted, limit)
        }),
{
    let (raws0, read0) = choose|raws: Seq<String>, read: Seq<Option<Bounty>>| #[trigger]
        is_reading(records, decode, raws, read) && whole == newest_first(
            selected(readable(read), keep, cursor),
        );
    let keys0 = keys_of_reading(records, decode, raws0, read0);
    let (keys, read) = reading_of(page, records, decode, keep, limit, cursor);
    let sorted = newest_first(selected(readable(read), keep, cursor));
    newest_first_arranges(selected(readable(read), keep, cursor));
    newest_first_arranges(selected(readable(read0), keep, cursor));
    readings_hold_the_same(records, decode, value, keep, cursor, keys, read, keys0, read0);
    vstd::seq_lib::to_multiset_len(sorted);
    vstd::seq_lib::to_multiset_len(whole);
    newest_first_fixes_the_instants(whole, sorted);
    if breaks_cleanly(whole, limit) {
        instants_fix_the_breaks(whole, sorted, limit);
    }
    let raws = keys.map_values(|key: String| records[key]);
    assert(is_walk(records, raws));
    assert(is_reading(records, decode, raws, read));
    (raws, read)
}

/// Asking a store for page after page comes to an end: there are no more pages of
/// a positive limit than it takes to hold the listing.
pub proof fn paging_ends<D: Fn(&String) -> Option<Bounty>>(
    pages: Seq<BountyPage>,
    whole: Seq<Bounty>,
    records: Map<String, String>,
    decode: D,
    value: spec_fn(String) -> Option<Bounty>,
    keep: spec_fn(Bounty) -> bool,
    limit: i64,
    cursor: Option<Timestamp>,
)
    requires
        follow_each_other(pages, records, decode, keep, limit, cursor),
        is_whole_listing(whole, records, decode, keep, cursor),
        reads_one_way(decode, value),
        limit > 0,
    ensures
        pages.len() <= page_count(whole.len(), limit),
    decreases pages.len(),
{
    page_count_steps(whole.len(), 0, limit);
    if pages.len() > 1 {
        let (raws, read) = page_reading_matches(
            pages[0],
            whole,
            records,
            decode,
            value,
            keep,
            limit,
            cursor,
        );
        let bounties = readable(read);
        let next = pages[0].next_cursor;
        let rest = newest_first(selected(bounties, keep, next));
        newest_first_arranges(selected(bounties, keep, next));
        next_page_has_fewer(bounties, keep, cursor, limit);
        assert(is_whole_listing(rest, records, decode, keep, next));
        paging_ends(pages.drop_first(), rest, records, decode, value, keep, limit, next);
        page_count_steps((whole.len() - limit) as nat, rest.len(), limit);
    }
}

/// Read to its end by pages of a positive limit, a listing takes as many pages as
/// it takes to hold it, where no page ends between two bounties of one instant.
pub proof fn pages_are_as_many_as_it_takes<D: Fn(&String) -> Option<Bounty>>(
    pages: Seq<BountyPage>,
    whole: Seq<Bounty>,
    records: Map<String, String>,
    decode: D,
    value: spec_fn(String) -> Option<Bounty>,
    keep: spec_fn(Bounty) -> bool,
    limit: i64,
    cursor: Option<Timestamp>,
)
    requires
        are_pages(pages, records, decode, keep, limit, cursor),
        is_whole_listing(whole, records, decode, keep, cursor),
        reads_one_way(decode, value),
        breaks_cleanly(whole, limit),
        limit > 0,
    ensures
        pages.len() == page_count(whole.len(), limit),
    decreases pages.len(),
{
    page_count_steps(whole.len(), 0, limit);
    let (raws, read) = page_reading_matches(
        pages[0],
        whole,
        records,
        decode,
        value,
        keep,
        limit,
        cursor,
    );
    let bounties = readable(read);
    let sorted = newest_first(selected(bounties, keep, cursor));
    if let Some(next) = pages[0].next_cursor {
        let rest = sorted.skip(limit as int);
        next_page_continues(bounties, keep, cursor, limit);
        assert(is_whole_listing(rest, records, decode, keep, Some(next)));
        pages_are_as_many_as_it_takes(
            pages.drop_first(),
            rest,
            records,
            decode,
            value,
            keep,
            limit,
            Some(next),
        );
    } else {
        assert(!overflows(sorted, limit));
    }
}

/// Where every bounty of a store has an instant of its own, so has every bounty
/// of a reading.
proof fn selection_differs<D: Fn(&String) -> Option<Bounty>>(
    records: Map<String, String>,
    decode: D,
    value: spec_fn(String) -> Option<Bounty>,
    keep: spec_fn(Bounty) -> bool,
    cursor: Option<Timestamp>,
    keys: Seq<String>,
    read: Seq<Option<Bounty>>,
    n: int,
)
    requires
        reads_keys(records, decode, keys, read),
        reads_one_way(decode, value),
        instants_differ(records, value, keep, cursor),
        0 <= n <= read.len(),
    ensures
        instants(selected(readable(read.take(n)), keep, cursor)).no_duplicates(),
    decreases n,
{
    let now = read.take(n);
    if n == 0 {
        reveal(Seq::filter);
    } else {
        let before = read.take(n - 1);
        selection_differs(records, decode, value, keep, cursor, keys, read, n - 1);
        assert(now.drop_last() =~= before);
        let chosen = selected(readable(before), keep, cursor);
        if let Some(bounty) = now.last() {
            selected_push(readable(before), bounty, keep, cursor);
            if keep(bounty) && admits(cursor, bounty) {
                let more = chosen.push(bounty);
                assert(instants(more) =~= instants(chosen).push(bounty.created_at));
                assert forall|i: int| 0 <= i < chosen.len() implies #[trigger] instants(chosen)[i]
                    != bounty.created_at by {
                    let m = reading_of_selected(before, keep, cursor, i);
                    assert(before[m] == read[m]);
                    assert(read[n - 1] == Some(bounty));
                    assert(value(records[keys[m]]) == read[m]);
                    assert(value(records[keys[n - 1]]) == read[n - 1]);
                    assert(keys[m] != keys[n - 1]);
                    assert(lets_in(records, value, keep, cursor, keys[m]));
                    assert(lets_in(records, value, keep, cursor, keys[n - 1]));
                }
            }
        }
    }
}

/// Where every bounty has an instant of its own, a listing is strictly newest
/// first, and no page that can hold any bounty ends between two of one instant.
pub proof fn differing_instants_break_cleanly<D: Fn(&String) -> Option<Bounty>>(
    whole: Seq<Bounty>,
    records: Map<String, String>,
    decode: D,
    value: spec_fn(String) -> Option<Bounty>,
    keep: spec_fn(Bounty) -> bool,
    limit: i64,
    cursor: Option<Timestamp>,
)
    requires
        is_whole_listing(whole, records, decode, keep, cursor),
        reads_one_way(decode, value),
        instants_differ(records, value, keep, cursor),
        limit != 0,
    ensures
        is_strictly_newest_first(whole),
        instants_tell_apart(records, value, keep, cursor),
        breaks_cleanly(whole, limit),
{
    let (raws, read) = choose|raws: Seq<String>, read: Seq<Option<Bounty>>| #[trigger]
        is_reading(records, decode, raws, read) && whole == newest_first(
            selected(readable(read), keep, cursor),
        );
    let keys = keys_of_reading(records, decode, raws, read);
    let chosen = selected(readable(read), keep, cursor);
    selection_differs(records, decode, value, keep, cursor, keys, read, read.len() as int);
    assert(read.take(read.len() as int) =~= read);
    newest_first_arranges(chosen);
    same_bounties_have_same_instants(whole, chosen);
    instants(chosen).lemma_multiset_has_no_duplicates();
    instants(whole).lemma_multiset_has_no_duplicates_conv();
    assert forall|i: int, j: int|
        #![trigger whole[i], whole[j]]
        0 <= i < j < whole.len() implies whole[j].created_at.before(whole[i].created_at) by {
        assert(!whole[i].created_at.before(whole[j].created_at));
        assert(instants(whole)[i] != instants(whole)[j]);
    }
    strict_order_breaks_cleanly(whole, limit);
}

/// Bounties that are strictly newest first leave no two of one instant to end a
/// page between.
proof fn strict_order_breaks_cleanly(bounties: Seq<Bounty>, limit: i64)
    requires
        is_strictly_newest_first(bounties),
        limit != 0,
    ensures
        breaks_cleanly(bounties, limit),
    decreases bounties.len(),
{
    if overflows(bounties, limit) {
        let rest = bounties.skip(limit as int);
        assert(bounties[limit as int].created_at.before(bounties[limit - 1].created_at));
        assert forall|i: int, j: int|
            #![trigger rest[i], rest[j]]
            0 <= i < j < rest.len() implies rest[j].created_at.before(rest[i].created_at) by {
            assert(bounties[limit + j].created_at.before(bounties[limit + i].created_at));
        }
        strict_order_breaks_cleanly(rest, limit);
    }
}

/// Where every bounty has an instant of its own, asking a store for page after
/// page of a positive limit gives the whole listing, strictly newest first and
/// each bounty once, in as many pages as it takes to hold it.
pub proof fn differing_instants_page_through<D: Fn(&String) -> Option<Bounty>>(
    pages: Seq<BountyPage>,
    whole: Seq<Bounty>,
    records: Map<String, String>,
    decode: D,
    value: spec_fn(String) -> Option<Bounty>,
    keep: spec_fn(Bounty) -> bool,
    limit: i64,
    cursor: Option<Timestamp>,
)
    requires
        are_pages(pages, records, decode, keep, limit, cursor),
        is_whole_listing(whole, records, decode, keep, cursor),
        reads_one_way(decode, value),
        instants_differ(records, value, keep, cursor),
        limit > 0,
    ensures
        on_pages(pages) == whole,
        is_strictly_newest_first(on_pages(pages)),
        pages.len() == page_count(whole.len(), limit),
{
    differing_instants_break_cleanly(whole, records, decode, value, keep, limit, cursor);
    pages_give_the_whole_listing(pages, whole, records, decode, value, keep, limit, cursor);
    pages_are_as_many_as_it_takes(pages, whole, records, decode, value, keep, limit, cursor);
}

} // verus!
