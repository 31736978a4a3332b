//! Pages of bounties.
use mergemint_backend::db::{Bounty, BountyPage};
use mergemint_backend::paging::first_page;
use mergemint_backend::timestamp::Timestamp;

fn at(seconds: i64) -> Timestamp {
    Timestamp { seconds, nanos: 0 }
}

fn bounty(id: &str, seconds: i64) -> Bounty {
    Bounty {
        id: id.to_string(),
        creator: "creator".to_string(),
        assignee: None,
        created_at: at(seconds),
    }
}

fn ids(page: &BountyPage) -> Vec<&str> {
    page.bounties.iter().map(|b| b.id.as_str()).collect()
}

#[test]
fn a_page_is_newest_first() {
    let page = first_page(vec![bounty("b", 2), bounty("d", 4), bounty("a", 1), bounty("c", 3)], 10);
    assert_eq!(ids(&page), vec!["d", "c", "b", "a"]);
    assert_eq!(page.next_cursor, None);
}

#[test]
fn bounties_of_one_instant_keep_their_order() {
    let page = first_page(
        vec![bounty("x", 1), bounty("p", 5), bounty("y", 1), bounty("q", 5), bounty("z", 1)],
        10,
    );
    assert_eq!(ids(&page), vec!["p", "q", "x", "y", "z"]);
}

#[test]
fn an_overfull_page_is_cut_and_names_a_cursor() {
    let page = first_page(vec![bounty("a", 1), bounty("b", 2), bounty("c", 3)], 2);
    assert_eq!(ids(&page), vec!["c", "b"]);
    assert_eq!(page.next_cursor, Some(at(2)));
}

#[test]
fn a_page_that_just_fits_names_no_cursor() {
    let page = first_page(vec![bounty("a", 1), bounty("b", 2)], 2);
    assert_eq!(ids(&page), vec!["b", "a"]);
    assert_eq!(page.next_cursor, None);
}

#[test]
fn a_limit_of_zero_gives_nothing() {
    let page = first_page(vec![bounty("a", 1)], 0);
    assert!(page.bounties.is_empty());
    assert_eq!(page.next_cursor, None);
}

#[test]
fn a_negative_limit_sets_no_bound() {
    let page = first_page(vec![bounty("a", 1), bounty("b", 2)], -1);
    assert_eq!(ids(&page), vec!["b", "a"]);
    assert_eq!(page.next_cursor, None);
    let page = first_page(vec![bounty("a", 1)], i64::MIN);
    assert_eq!(ids(&page), vec!["a"]);
}

#[test]
fn no_bounties_give_an_empty_page() {
    let page = first_page(vec![], 5);
    assert!(page.bounties.is_empty());
    assert_eq!(page.next_cursor, None);
}

#[test]
fn the_largest_limit_cuts_nothing() {
    let page = first_page(vec![bounty("a", 1), bounty("b", 2)], i64::MAX);
    assert_eq!(ids(&page), vec!["b", "a"]);
    assert_eq!(page.next_cursor, None);
}

#[test]
fn nanoseconds_order_bounties_of_one_second() {
    let mut late = bounty("late", 7);
    late.created_at.nanos = 2;
    let mut early = bounty("early", 7);
    early.created_at.nanos = 1;
    let page = first_page(vec![early, late], 1);
    assert_eq!(ids(&page), vec!["late"]);
    assert_eq!(page.next_cursor, Some(Timestamp { seconds: 7, nanos: 2 }));
}

#[test]
fn distinct_instants_make_the_order_of_arrival_immaterial() {
    let one = first_page(vec![bounty("a", 1), bounty("b", 2), bounty("c", 3)], 2);
    let two = first_page(vec![bounty("c", 3), bounty("a", 1), bounty("b", 2)], 2);
    assert_eq!(ids(&one), ids(&two));
    assert_eq!(one.next_cursor, two.next_cursor);
}

#[test]
fn a_page_holds_the_newest() {
    let many: Vec<Bounty> = (0..50).map(|n| bounty(&n.to_string(), (n * 37) % 50)).collect();
    let page = first_page(many, 7);
    let seconds: Vec<i64> = page.bounties.iter().map(|b| b.created_at.seconds).collect();
    assert_eq!(seconds, vec![49, 48, 47, 46, 45, 44, 43]);
    assert_eq!(page.next_cursor, Some(at(43)));
}
