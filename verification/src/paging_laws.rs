//! What holds of pages: that a page keeps to its limit and holds the newest
//! bounties, and that following the cursors reads a listing to its end.
use vstd::prelude::*;

use crate::db::Bounty;
use crate::paging::{
    admits, arrangement_is_unique, created_at, is_newest_first, newest_first,
    newest_first_arranges, overflows, page_cursor, page_entries, selected,
};
use crate::timestamp::Timestamp;

verus! {

/// A page holds no more bounties than a limit that is not negative.
pub proof fn page_keeps_to_its_limit(candidates: Seq<Bounty>, limit: i64)
    requires
        limit >= 0,
    ensures
        page_entries(newest_first(candidates), limit).len() <= limit,
{
}

/// A page and what it leaves out are together the candidates, and nothing that
/// it leaves out is newer than anything on it.
pub proof fn page_holds_the_newest(candidates: Seq<Bounty>, limit: i64)
    ensures
        ({
            let sorted = newest_first(candidates);
            let entries = page_entries(sorted, limit);
            let left_out = sorted.skip(entries.len() as int);
            &&& is_newest_first(entries)
            &&& candidates.to_multiset() == entries.to_multiset().add(left_out.to_multiset())
            &&& forall|i: int, j: int|
                #![trigger entries[i], left_out[j]]
                0 <= i < entries.len() && 0 <= j < left_out.len()
                    ==> !entries[i].created_at.before(left_out[j].created_at)
        }),
{
    let sorted = newest_first(candidates);
    let entries = page_entries(sorted, limit);
    let left_out = sorted.skip(entries.len() as int);
    newest_first_arranges(candidates);
    assert(sorted == entries + left_out);
    vstd::seq_lib::lemma_multiset_commutative(entries, left_out);
}

/// A page names a cursor exactly where it holds bounties and leaves any out, and
/// the cursor is the instant of the oldest bounty on it.
pub proof fn cursor_is_the_end_of_the_page(candidates: Seq<Bounty>, limit: i64)
    ensures
        ({
            let sorted = newest_first(candidates);
            let entries = page_entries(sorted, limit);
            &&& page_cursor(sorted, limit) is Some <==> 0 < entries.len() < candidates.len()
            &&& page_cursor(sorted, limit) matches Some(at) ==> at == entries.last().created_at
        }),
{
    newest_first_arranges(candidates);
}

/// A limit of nothing gives an empty page without a cursor.
pub proof fn empty_limit_gives_an_empty_page(candidates: Seq<Bounty>)
    ensures
        page_entries(newest_first(candidates), 0).len() == 0,
        page_cursor(newest_first(candidates), 0) is None,
{
}

/// Where no two different bounties share an instant, a listing does not depend
/// on the order in which the bounties come.
pub proof fn order_of_arrival_is_immaterial(first: Seq<Bounty>, second: Seq<Bounty>)
    requires
        first.to_multiset() == second.to_multiset(),
        forall|i: int, j: int|
            #![trigger first[i], first[j]]
            0 <= i < first.len() && 0 <= j < first.len() && first[i].created_at
                == first[j].created_at ==> first[i] == first[j],
    ensures
        newest_first(first) == newest_first(second),
{
    broadcast use vstd::seq_lib::group_to_multiset_ensures;

    assert forall|at: Timestamp| #[trigger]
        created_at(first, at) == created_at(second, at) by {
        let p = |bounty: Bounty| bounty.created_at == at;
        let a = created_at(first, at);
        let b = created_at(second, at);
        assert forall|x: Bounty| a.contains(x) <==> b.contains(x) by {
            count_of_filtered(first, p, x);
            count_of_filtered(second, p, x);
            assert(a.to_multiset().count(x) == b.to_multiset().count(x));
        }
        assert forall|x: Bounty| a.contains(x) implies first.contains(x) && x.created_at == at by {
            first.lemma_filter_contains_rev(p, x);
            let k = choose|k: int| 0 <= k < a.len() && a[k] == x;
            first.lemma_filter_pred(p, k);
        }
        if a.len() > 0 {
            let x = a[0];
            assert(a.contains(x));
            assert forall|k: int| 0 <= k < a.len() implies a[k] == x by {
                assert(a.contains(a[k]));
                let i = choose|i: int| 0 <= i < first.len() && first[i] == x;
                let j = choose|j: int| 0 <= j < first.len() && first[j] == a[k];
                assert(first[i] == first[j]);
            }
            assert forall|k: int| 0 <= k < b.len() implies b[k] == x by {
                assert(b.contains(b[k]));
                assert(a.contains(b[k]));
            }
            count_of_repeats(a, x);
            count_of_repeats(b, x);
            count_of_filtered(first, p, x);
            count_of_filtered(second, p, x);
            assert(a =~= b);
        } else {
            if b.len() > 0 {
                assert(b.contains(b[0]));
                assert(a.contains(b[0]));
            }
            assert(a =~= b);
        }
    }
    newest_first_arranges(first);
    newest_first_arranges(second);
    assert forall|at: Timestamp| #[trigger]
        created_at(newest_first(second), at) == created_at(first, at) by {
        assert(created_at(newest_first(second), at) == created_at(second, at));
        assert(created_at(first, at) == created_at(second, at));
    }
    arrangement_is_unique(newest_first(first), newest_first(second), first);
}

/// A sequence that holds one bounty over and over holds it as often as it is
/// long.
proof fn count_of_repeats(bounties: Seq<Bounty>, x: Bounty)
    requires
        forall|k: int| 0 <= k < bounties.len() ==> #[trigger] bounties[k] == x,
    ensures
        bounties.to_multiset().count(x) == bounties.len(),
    decreases bounties.len(),
{
    broadcast use vstd::seq_lib::group_to_multiset_ensures;

    if bounties.len() > 0 {
        count_of_repeats(bounties.drop_last(), x);
        assert(bounties == bounties.drop_last().push(x));
    }
}

/// Sequences with the same bounties at each instant hold the same bounties.
proof fn same_instants_same_bounties(first: Seq<Bounty>, second: Seq<Bounty>)
    requires
        forall|at: Timestamp| #[trigger] created_at(first, at) == created_at(second, at),
    ensures
        first.to_multiset() == second.to_multiset(),
{
    assert forall|x: Bounty| #[trigger]
        first.to_multiset().count(x) == second.to_multiset().count(x) by {
        count_of_filtered(first, |bounty: Bounty| bounty.created_at == x.created_at, x);
        count_of_filtered(second, |bounty: Bounty| bounty.created_at == x.created_at, x);
        assert(created_at(first, x.created_at) == created_at(second, x.created_at));
    }
    assert(first.to_multiset() =~= second.to_multiset());
}

/// Filtering twice is filtering by both.
proof fn filter_twice(
    bounties: Seq<Bounty>,
    p: spec_fn(Bounty) -> bool,
    q: spec_fn(Bounty) -> bool,
    both: spec_fn(Bounty) -> bool,
)
    requires
        forall|x: Bounty| #[trigger] both(x) == (p(x) && q(x)),
    ensures
        bounties.filter(p).filter(q) == bounties.filter(both),
    decreases bounties.len(),
{
    reveal(Seq::filter);
    if bounties.len() > 0 {
        let rest = bounties.drop_last();
        filter_twice(rest, p, q, both);
        assert(both(bounties.last()) == (p(bounties.last()) && q(bounties.last())));
        if p(bounties.last()) {
            assert(rest.filter(p).push(bounties.last()).drop_last() == rest.filter(p));
        }
    }
}

/// A filter that turns a bounty away leaves fewer.
proof fn filter_drops(bounties: Seq<Bounty>, p: spec_fn(Bounty) -> bool, x: Bounty)
    requires
        bounties.contains(x),
        !p(x),
    ensures
        bounties.filter(p).len() < bounties.len(),
    decreases bounties.len(),
{
    reveal(Seq::filter);
    let rest = bounties.drop_last();
    rest.lemma_filter_len(p);
    if bounties.last() != x {
        let k = choose|k: int| 0 <= k < bounties.len() && bounties[k] == x;
        assert(rest[k] == x);
        filter_drops(rest, p, x);
    }
}

/// The bounties of `bounties` that `keep` lets in and that `next` admits, where
/// `cursor` admits whatever `next` does.
proof fn selected_narrows(
    bounties: Seq<Bounty>,
    keep: spec_fn(Bounty) -> bool,
    cursor: Option<Timestamp>,
    next: Timestamp,
)
    requires
        cursor matches Some(at) ==> next.before(at),
    ensures
        selected(bounties, keep, Some(next)) == selected(bounties, keep, cursor).filter(
            |bounty: Bounty| admits(Some(next), bounty),
        ),
{
    filter_twice(
        bounties,
        |bounty: Bounty| keep(bounty) && admits(cursor, bounty),
        |bounty: Bounty| admits(Some(next), bounty),
        |bounty: Bounty| keep(bounty) && admits(Some(next), bounty),
    );
}

/// The cursor behind a page comes before the one that the page started from, and
/// fewer bounties are left behind it.
pub proof fn cursor_moves_back(
    bounties: Seq<Bounty>,
    keep: spec_fn(Bounty) -> bool,
    cursor: Option<Timestamp>,
    limit: i64,
)
    requires
        page_cursor(newest_first(selected(bounties, keep, cursor)), limit) is Some,
    ensures
        ({
            let sorted = newest_first(selected(bounties, keep, cursor));
            let next = page_cursor(sorted, limit)->Some_0;
            &&& cursor matches Some(at) ==> next.before(at)
            &&& selected(bounties, keep, cursor).contains(sorted[limit - 1])
            &&& selected(bounties, keep, Some(next)).len() < selected(bounties, keep, cursor).len()
        }),
{
    broadcast use vstd::seq_lib::group_to_multiset_ensures;

    let candidates = selected(bounties, keep, cursor);
    let sorted = newest_first(candidates);
    newest_first_arranges(candidates);
    let end = sorted[limit - 1];
    let next = end.created_at;
    assert(sorted.contains(end));
    assert(sorted.to_multiset().count(end) > 0);
    assert(candidates.to_multiset().count(end) > 0);
    assert(candidates.contains(end));
    let p = |bounty: Bounty| keep(bounty) && admits(cursor, bounty);
    let k = choose|k: int| 0 <= k < candidates.len() && candidates[k] == end;
    bounties.lemma_filter_pred(p, k);
    selected_narrows(bounties, keep, cursor, next);
    filter_drops(candidates, |bounty: Bounty| admits(Some(next), bounty), end);
}

/// The next page has at least a page's worth of bounties fewer to choose from.
pub proof fn next_page_has_fewer(
    bounties: Seq<Bounty>,
    keep: spec_fn(Bounty) -> bool,
    cursor: Option<Timestamp>,
    limit: i64,
)
    requires
        page_cursor(newest_first(selected(bounties, keep, cursor)), limit) is Some,
    ensures
        ({
            let sorted = newest_first(selected(bounties, keep, cursor));
            selected(bounties, keep, page_cursor(sorted, limit)).len() + limit <= selected(
                bounties,
                keep,
                cursor,
            ).len()
        }),
{
    let candidates = selected(bounties, keep, cursor);
    let sorted = newest_first(candidates);
    let next = sorted[limit - 1].created_at;
    let admitted = |bounty: Bounty| admits(Some(next), bounty);
    let head = sorted.take(limit as int);
    let tail = sorted.skip(limit as int);
    newest_first_arranges(candidates);
    cursor_moves_back(bounties, keep, cursor, limit);
    selected_narrows(bounties, keep, cursor, next);
    assert forall|x: Bounty| #[trigger]
        sorted.filter(admitted).to_multiset().count(x) == candidates.filter(
            admitted,
        ).to_multiset().count(x) by {
        count_of_filtered(sorted, admitted, x);
        count_of_filtered(candidates, admitted, x);
    }
    assert(sorted.filter(admitted).to_multiset() =~= candidates.filter(admitted).to_multiset());
    vstd::seq_lib::to_multiset_len(sorted.filter(admitted));
    vstd::seq_lib::to_multiset_len(candidates.filter(admitted));
    assert(sorted == head + tail);
    Seq::filter_distributes_over_add(head, tail, admitted);
    tail.lemma_filter_len(admitted);
    if head.filter(admitted).len() > 0 {
        let i = filtered_from(head, admitted, 0);
        assert(head[i] == sorted[i]);
        if i < limit - 1 {
            assert(!sorted[i].created_at.before(sorted[limit - 1].created_at));
        }
    }
}

/// Every bounty that the next page can hold is older than every bounty on this
/// one.
pub proof fn next_page_is_older(
    bounties: Seq<Bounty>,
    keep: spec_fn(Bounty) -> bool,
    cursor: Option<Timestamp>,
    limit: i64,
)
    requires
        page_cursor(newest_first(selected(bounties, keep, cursor)), limit) is Some,
    ensures
        ({
            let sorted = newest_first(selected(bounties, keep, cursor));
            let entries = page_entries(sorted, limit);
            let following = selected(bounties, keep, page_cursor(sorted, limit));
            forall|i: int, j: int|
                #![trigger entries[i], following[j]]
                0 <= i < entries.len() && 0 <= j < following.len()
                    ==> following[j].created_at.before(entries[i].created_at)
        }),
{
    let candidates = selected(bounties, keep, cursor);
    let sorted = newest_first(candidates);
    let entries = page_entries(sorted, limit);
    let next = page_cursor(sorted, limit);
    let following = selected(bounties, keep, next);
    newest_first_arranges(candidates);
    assert forall|i: int, j: int|
        #![trigger entries[i], following[j]]
        0 <= i < entries.len() && 0 <= j < following.len() implies following[j].created_at.before(
        entries[i].created_at,
    ) by {
        bounties.lemma_filter_pred(
            |bounty: Bounty| keep(bounty) && admits(next, bounty),
            j,
        );
        assert(entries[i] == sorted[i]);
        if i < limit - 1 {
            assert(!sorted[i].created_at.before(sorted[limit - 1].created_at));
        }
    }
}

/// Where no two bounties of one instant stand on both sides of the page's end,
/// the next page goes on exactly where this one stopped.
pub proof fn next_page_continues(
    bounties: Seq<Bounty>,
    keep: spec_fn(Bounty) -> bool,
    cursor: Option<Timestamp>,
    limit: i64,
)
    requires
        ({
            let sorted = newest_first(selected(bounties, keep, cursor));
            &&& page_cursor(sorted, limit) is Some
            &&& sorted[limit - 1].created_at != sorted[limit as int].created_at
        }),
    ensures
        ({
            let sorted = newest_first(selected(bounties, keep, cursor));
            newest_first(selected(bounties, keep, page_cursor(sorted, limit))) == sorted.skip(
                limit as int,
            )
        }),
{
    let candidates = selected(bounties, keep, cursor);
    let sorted = newest_first(candidates);
    let next = sorted[limit - 1].created_at;
    let head = sorted.take(limit as int);
    let tail = sorted.skip(limit as int);
    let following = selected(bounties, keep, Some(next));
    newest_first_arranges(candidates);
    cursor_moves_back(bounties, keep, cursor, limit);
    selected_narrows(bounties, keep, cursor, next);
    assert(sorted == head + tail);
    assert forall|at: Timestamp| #[trigger] created_at(tail, at) == created_at(following, at) by {
        let p = |bounty: Bounty| bounty.created_at == at;
        let admitted = |bounty: Bounty| admits(Some(next), bounty);
        Seq::filter_distributes_over_add(head, tail, p);
        assert(created_at(sorted, at) == created_at(candidates, at));
        if at.before(next) {
            assert(created_at(head, at).len() == 0) by {
                if created_at(head, at).len() > 0 {
                    let i = filtered_from(head, p, 0);
                    assert(head[i] == sorted[i]);
                    if i < limit - 1 {
                        assert(!sorted[i].created_at.before(sorted[limit - 1].created_at));
                    }
                }
            }
            assert(created_at(tail, at) =~= created_at(sorted, at));
            filter_twice(candidates, admitted, p, p);
        } else {
            assert(created_at(tail, at).len() == 0) by {
                if created_at(tail, at).len() > 0 {
                    let i = filtered_from(tail, p, 0);
                    assert(tail[i] == sorted[limit + i]);
                    assert(!sorted[limit - 1].created_at.before(sorted[limit as int].created_at));
                    if i > 0 {
                        assert(!sorted[limit as int].created_at.before(sorted[limit + i].created_at));
                    }
                }
            }
            assert(created_at(following, at).len() == 0) by {
                if created_at(following, at).len() > 0 {
                    let i = filtered_from(following, p, 0);
                    candidates.lemma_filter_pred(admitted, i);
                }
            }
            assert(created_at(tail, at) =~= created_at(following, at));
        }
    }
    same_instants_same_bounties(tail, following);
    assert(is_newest_first(tail)) by {
        assert forall|i: int, j: int|
            #![trigger tail[i], tail[j]]
            0 <= i < j < tail.len() implies !tail[i].created_at.before(tail[j].created_at) by {
            assert(!sorted[limit + i].created_at.before(sorted[limit + j].created_at));
        }
    }
    newest_first_arranges(following);
    arrangement_is_unique(tail, newest_first(following), following);
}

/// Where in `bounties` the bounty at `i` of the filtered ones stands.
proof fn filtered_from(bounties: Seq<Bounty>, p: spec_fn(Bounty) -> bool, i: int) -> (k: int)
    requires
        0 <= i < bounties.filter(p).len(),
    ensures
        0 <= k < bounties.len(),
        bounties[k] == bounties.filter(p)[i],
        p(bounties[k]),
{
    let x = bounties.filter(p)[i];
    bounties.lemma_filter_pred(p, i);
    assert(bounties.filter(p).contains(x));
    bounties.lemma_filter_contains_rev(p, x);
    choose|k: int| 0 <= k < bounties.len() && bounties[k] == x
}

/// All pages from `cursor` on, one behind the other, each page's cursor handed
/// to the next.
pub open spec fn all_pages(
    bounties: Seq<Bounty>,
    keep: spec_fn(Bounty) -> bool,
    cursor: Option<Timestamp>,
    limit: i64,
) -> Seq<Bounty>
    decreases selected(bounties, keep, cursor).len(),
{
    let sorted = newest_first(selected(bounties, keep, cursor));
    match page_cursor(sorted, limit) {
        None => page_entries(sorted, limit),
        Some(next) => {
            proof {
                cursor_moves_back(bounties, keep, cursor, limit);
            }
            page_entries(sorted, limit) + all_pages(bounties, keep, Some(next), limit)
        },
    }
}

/// No page of `sorted` ends between two bounties of one instant, and the limit
/// lets a page hold any.
pub open spec fn breaks_cleanly(sorted: Seq<Bounty>, limit: i64) -> bool
    decreases sorted.len(),
{
    overflows(sorted, limit) ==> {
        &&& limit > 0
        &&& sorted[limit - 1].created_at != sorted[limit as int].created_at
        &&& breaks_cleanly(sorted.skip(limit as int), limit)
    }
}

/// The instants of `bounties`, in its order.
pub open spec fn instants(bounties: Seq<Bounty>) -> Seq<Timestamp> {
    bounties.map_values(|bounty: Bounty| bounty.created_at)
}

/// The same bounties have the same instants, as often.
pub proof fn same_bounties_have_same_instants(first: Seq<Bounty>, second: Seq<Bounty>)
    requires
        first.to_multiset() == second.to_multiset(),
    ensures
        instants(first).to_multiset() == instants(second).to_multiset(),
    decreases first.len(),
{
    broadcast use vstd::seq_lib::group_to_multiset_ensures;

    vstd::seq_lib::to_multiset_len(first);
    vstd::seq_lib::to_multiset_len(second);
    if first.len() == 0 {
        assert(instants(first) =~= instants(second));
    } else {
        let n = first.len() - 1;
        assert(first.to_multiset().count(first[n]) > 0);
        assert(second.contains(first[n]));
        let m = choose|m: int| 0 <= m < second.len() && second[m] == first[n];
        assert(first.remove(n).to_multiset() == second.remove(m).to_multiset());
        same_bounties_have_same_instants(first.remove(n), second.remove(m));
        assert(instants(first).remove(n) =~= instants(first.remove(n)));
        assert(instants(second).remove(m) =~= instants(second.remove(m)));
        let at = first[n].created_at;
        assert(instants(first)[n] == at);
        assert(instants(second)[m] == at);
        assert(instants(first).to_multiset() =~= instants(first).remove(n).to_multiset().insert(at));
        assert(instants(second).to_multiset() =~= instants(second).remove(m).to_multiset().insert(
            at,
        ));
    }
}

/// The same bounties, newest first, follow each other by the same instants.
pub proof fn newest_first_fixes_the_instants(first: Seq<Bounty>, second: Seq<Bounty>)
    requires
        is_newest_first(first),
        is_newest_first(second),
        first.to_multiset() == second.to_multiset(),
    ensures
        instants(first) == instants(second),
{
    let no_older = |a: Timestamp, b: Timestamp| !a.before(b);
    same_bounties_have_same_instants(first, second);
    newest_first_sorts_the_instants(first);
    newest_first_sorts_the_instants(second);
    vstd::seq_lib::lemma_sorted_unique(instants(first), instants(second), no_older);
}

/// The instants of newest-first bounties never grow.
proof fn newest_first_sorts_the_instants(bounties: Seq<Bounty>)
    requires
        is_newest_first(bounties),
    ensures
        vstd::relations::sorted_by(
            instants(bounties),
            |a: Timestamp, b: Timestamp| !a.before(b),
        ),
{
    assert forall|i: int, j: int| 0 <= i < j < instants(bounties).len() implies !instants(
        bounties,
    )[i].before(instants(bounties)[j]) by {
        assert(!bounties[i].created_at.before(bounties[j].created_at));
    }
}

/// Where the pages of a listing end depends on the instants alone.
pub(crate) proof fn instants_fix_the_breaks(first: Seq<Bounty>, second: Seq<Bounty>, limit: i64)
    requires
        instants(first) == instants(second),
        breaks_cleanly(first, limit),
    ensures
        breaks_cleanly(second, limit),
    decreases first.len(),
{
    assert(instants(first).len() == first.len() && instants(second).len() == second.len());
    if overflows(first, limit) {
        let n = limit as int;
        assert(first[n].created_at == instants(first)[n] && second[n].created_at == instants(
            second,
        )[n]);
        assert(first[n - 1].created_at == instants(first)[n - 1] && second[n - 1].created_at
            == instants(second)[n - 1]);
        assert(instants(first.skip(n)) =~= instants(first).skip(n));
        assert(instants(second.skip(n)) =~= instants(second).skip(n));
        instants_fix_the_breaks(first.skip(n), second.skip(n), limit);
    }
}

/// Following the cursors reads the whole listing, newest first and each bounty
/// once, where no page ends between two bounties of one instant.
pub proof fn pages_cover_the_listing(
    bounties: Seq<Bounty>,
    keep: spec_fn(Bounty) -> bool,
    cursor: Option<Timestamp>,
    limit: i64,
)
    requires
        breaks_cleanly(newest_first(selected(bounties, keep, cursor)), limit),
    ensures
        all_pages(bounties, keep, cursor, limit) == newest_first(selected(bounties, keep, cursor)),
    decreases selected(bounties, keep, cursor).len(),
{
    let sorted = newest_first(selected(bounties, keep, cursor));
    if let Some(next) = page_cursor(sorted, limit) {
        cursor_moves_back(bounties, keep, cursor, limit);
        next_page_continues(bounties, keep, cursor, limit);
        pages_cover_the_listing(bounties, keep, Some(next), limit);
        assert(sorted == sorted.take(limit as int) + sorted.skip(limit as int));
    }
}

/// Following the cursors never gives a bounty more often than the listing has
/// it, wherever the pages end.
pub proof fn pages_never_repeat(
    bounties: Seq<Bounty>,
    keep: spec_fn(Bounty) -> bool,
    cursor: Option<Timestamp>,
    limit: i64,
)
    ensures
        all_pages(bounties, keep, cursor, limit).to_multiset().subset_of(
            selected(bounties, keep, cursor).to_multiset(),
        ),
    decreases selected(bounties, keep, cursor).len(),
{
    broadcast use vstd::seq_lib::group_to_multiset_ensures;

    let candidates = selected(bounties, keep, cursor);
    let sorted = newest_first(candidates);
    let entries = page_entries(sorted, limit);
    page_holds_the_newest(candidates, limit);
    if let Some(next) = page_cursor(sorted, limit) {
        let rest = all_pages(bounties, keep, Some(next), limit);
        let following = selected(bounties, keep, Some(next));
        let admitted = |bounty: Bounty| admits(Some(next), bounty);
        cursor_moves_back(bounties, keep, cursor, limit);
        next_page_is_older(bounties, keep, cursor, limit);
        selected_narrows(bounties, keep, cursor, next);
        pages_never_repeat(bounties, keep, Some(next), limit);
        vstd::seq_lib::lemma_multiset_commutative(entries, rest);
        assert forall|x: Bounty| #[trigger]
            (entries + rest).to_multiset().count(x) <= candidates.to_multiset().count(x) by {
            count_of_filtered(candidates, admitted, x);
            if entries.contains(x) && following.contains(x) {
                let i = choose|i: int| 0 <= i < entries.len() && entries[i] == x;
                let j = choose|j: int| 0 <= j < following.len() && following[j] == x;
                assert(following[j].created_at.before(entries[i].created_at));
            }
        }
    }
}

/// How often a bounty stands among those that a filter lets through.
pub(crate) proof fn count_of_filtered(bounties: Seq<Bounty>, p: spec_fn(Bounty) -> bool, x: Bounty)
    ensures
        bounties.filter(p).to_multiset().count(x) == (if p(x) {
            bounties.to_multiset().count(x)
        } else {
            0
        }),
    decreases bounties.len(),
{
    broadcast use vstd::seq_lib::group_to_multiset_ensures;

    reveal(Seq::filter);
    if bounties.len() > 0 {
        count_of_filtered(bounties.drop_last(), p, x);
        assert(bounties == bounties.drop_last().push(bounties.last()));
    }
}

} // verus!
