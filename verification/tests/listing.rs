//! Listings of a store.
use chrono::DateTime;
use mergemint_backend::db::{
    acquire_db, list_bounties_by_assignee, list_bounties_by_creator, new_shared_db, Bounty,
    BountyPage, DbStore,
};
use mergemint_backend::timestamp::Timestamp;
use serde_json::Value;

fn read_record(raw: &String) -> Option<Bounty> {
    let value: Value = serde_json::from_str(raw).ok()?;
    let created_at = DateTime::parse_from_rfc3339(value.get("created_at")?.as_str()?).ok()?;
    let assignee = match value.get("assignee") {
        None | Some(Value::Null) => None,
        Some(name) => Some(name.as_str()?.to_string()),
    };
    Some(Bounty {
        id: value.get("id")?.as_str()?.to_string(),
        creator: value.get("creator")?.as_str()?.to_string(),
        assignee,
        created_at: Timestamp {
            seconds: created_at.timestamp(),
            nanos: created_at.timestamp_subsec_nanos(),
        },
    })
}

fn record(id: &str, creator: &str, assignee: Option<&str>, day: u32) -> String {
    let assignee = match assignee {
        Some(name) => format!("\"{name}\""),
        None => "null".to_string(),
    };
    format!(
        "{{\"id\":\"{id}\",\"creator\":\"{creator}\",\"assignee\":{assignee},\"created_at\":\"2024-01-{day:02}T00:00:00Z\"}}"
    )
}

/// 2024-01-`day`T00:00:00Z
fn day(day: i64) -> Timestamp {
    Timestamp { seconds: 1704067200 + (day - 1) * 86400, nanos: 0 }
}

fn sample() -> DbStore {
    let mut store = DbStore::default();
    for raw in [
        record("one", "alice", Some("carol"), 1),
        record("two", "bob", None, 2),
        record("three", "alice", Some("dave"), 3),
        record("four", "bob", Some("carol"), 4),
        record("five", "alice", None, 5),
    ] {
        let key = read_record(&raw).unwrap().id;
        store.records.insert(key, raw);
    }
    store
}

fn ids(page: &BountyPage) -> Vec<&str> {
    page.bounties.iter().map(|b| b.id.as_str()).collect()
}

#[test]
fn an_empty_creator_lists_every_bounty() {
    let page = sample().bounties_by_creator("", 20, None, read_record);
    assert_eq!(ids(&page), vec!["five", "four", "three", "two", "one"]);
    assert_eq!(page.next_cursor, None);
}

#[test]
fn a_creator_lists_the_bounties_made() {
    let page = sample().bounties_by_creator("alice", 20, None, read_record);
    assert_eq!(ids(&page), vec!["five", "three", "one"]);
    let page = sample().bounties_by_creator("carol", 20, None, read_record);
    assert!(page.bounties.is_empty());
    assert_eq!(page.next_cursor, None);
}

#[test]
fn an_assignee_lists_the_bounties_assigned() {
    let page = sample().bounties_by_assignee("carol", 20, None, read_record);
    assert_eq!(ids(&page), vec!["four", "one"]);
    let page = sample().bounties_by_assignee("", 20, None, read_record);
    assert!(page.bounties.is_empty());
    let page = sample().bounties_by_assignee("alice", 20, None, read_record);
    assert!(page.bounties.is_empty());
}

#[test]
fn a_cursor_lets_in_only_what_is_older() {
    let page = sample().bounties_by_creator("", 20, Some(day(4)), read_record);
    assert_eq!(ids(&page), vec!["three", "two", "one"]);
    let page = sample().bounties_by_creator("", 20, Some(day(1)), read_record);
    assert!(page.bounties.is_empty());
}

#[test]
fn the_fields_of_a_listed_bounty_are_those_recorded() {
    let page = sample().bounties_by_assignee("dave", 20, None, read_record);
    assert_eq!(page.bounties.len(), 1);
    assert_eq!(page.bounties[0].id, "three");
    assert_eq!(page.bounties[0].creator, "alice");
    assert_eq!(page.bounties[0].assignee.as_deref(), Some("dave"));
    assert_eq!(page.bounties[0].created_at, day(3));
}

#[test]
fn records_that_cannot_be_read_are_passed_over() {
    let mut store = sample();
    store.records.insert("broken".to_string(), "not json".to_string());
    store.records.insert("partial".to_string(), "{\"id\":\"partial\"}".to_string());
    let page = store.bounties_by_creator("", 20, None, read_record);
    assert_eq!(ids(&page), vec!["five", "four", "three", "two", "one"]);
}

#[test]
fn a_text_under_two_keys_is_listed_twice() {
    let mut store = DbStore::default();
    store.records.insert("a".to_string(), record("same", "alice", None, 1));
    store.records.insert("b".to_string(), record("same", "alice", None, 1));
    store.records.insert("c".to_string(), record("other", "alice", None, 2));
    let page = store.bounties_by_creator("", 20, None, read_record);
    assert_eq!(ids(&page), vec!["other", "same", "same"]);
}

#[test]
fn following_the_cursors_reads_everything_once() {
    let store = sample();
    let mut seen: Vec<String> = Vec::new();
    let mut cursor = None;
    let mut pages = 0;
    loop {
        let page = store.bounties_by_creator("", 2, cursor, read_record);
        pages += 1;
        seen.extend(page.bounties.into_iter().map(|b| b.id));
        cursor = page.next_cursor;
        if cursor.is_none() {
            break;
        }
    }
    assert_eq!(seen, vec!["five", "four", "three", "two", "one"]);
    assert_eq!(pages, 3);
}

#[test]
fn bounties_of_one_instant_on_one_page_are_all_read() {
    let mut store = DbStore::default();
    for (id, day) in [("a", 1), ("b", 2), ("c", 2), ("d", 3)] {
        store.records.insert(id.to_string(), record(id, "alice", None, day));
    }
    let first = store.bounties_by_creator("", 3, None, read_record);
    let mut tied = ids(&first)[1..].to_vec();
    tied.sort();
    assert_eq!(first.bounties[0].id, "d");
    assert_eq!(tied, vec!["b", "c"]);
    assert_eq!(first.next_cursor, Some(day(2)));
    let second = store.bounties_by_creator("", 3, first.next_cursor, read_record);
    assert_eq!(ids(&second), vec!["a"]);
    assert_eq!(second.next_cursor, None);
}

#[test]
fn a_page_that_ends_within_an_instant_loses_the_rest_of_it() {
    let mut store = DbStore::default();
    store.records.insert("a".to_string(), record("a", "alice", None, 1));
    store.records.insert("b".to_string(), record("b", "alice", None, 1));
    let page = store.bounties_by_creator("", 1, None, read_record);
    assert_eq!(page.bounties.len(), 1);
    assert_eq!(page.next_cursor, Some(day(1)));
    let page = store.bounties_by_creator("", 1, page.next_cursor, read_record);
    assert!(page.bounties.is_empty());
    assert_eq!(page.next_cursor, None);
}

#[test]
fn one_store_gives_one_listing() {
    let one = sample().bounties_by_creator("", 3, None, read_record);
    let two = sample().bounties_by_creator("", 3, None, read_record);
    assert_eq!(ids(&one), ids(&two));
    assert_eq!(one.next_cursor, two.next_cursor);
}

#[test]
fn a_shared_store_is_listed_as_it_stands() {
    let db = new_shared_db();
    let page = list_bounties_by_creator(&db, "", 20, None, read_record).unwrap();
    assert!(page.bounties.is_empty());
    acquire_db(&db)
        .records
        .insert("one".to_string(), record("one", "alice", Some("carol"), 1));
    let page = list_bounties_by_creator(&db, "alice", 20, None, read_record).unwrap();
    assert_eq!(ids(&page), vec!["one"]);
    let page = list_bounties_by_creator(&db, "bob", 20, None, read_record).unwrap();
    assert!(page.bounties.is_empty());
    let page = list_bounties_by_assignee(&db, "carol", 20, None, read_record).unwrap();
    assert_eq!(ids(&page), vec!["one"]);
    let page = list_bounties_by_assignee(&db, "carol", 20, Some(day(1)), read_record).unwrap();
    assert!(page.bounties.is_empty());
    assert!(db.try_write().is_ok());
}

/// How many pages of `limit` a store with a bounty on each of `count` days gives.
fn pages_of(count: u32, limit: i64) -> i64 {
    let mut store = DbStore::default();
    for n in 1..=count {
        store.records.insert(n.to_string(), record(&n.to_string(), "alice", None, n));
    }
    let mut cursor = None;
    let mut pages = 0;
    loop {
        let page = store.bounties_by_creator("alice", limit, cursor, read_record);
        pages += 1;
        cursor = page.next_cursor;
        if cursor.is_none() {
            return pages;
        }
    }
}

#[test]
fn there_are_as_many_pages_as_it_takes() {
    assert_eq!(pages_of(0, 3), 1);
    assert_eq!(pages_of(1, 3), 1);
    assert_eq!(pages_of(3, 3), 1);
    assert_eq!(pages_of(4, 3), 2);
    assert_eq!(pages_of(6, 3), 2);
    assert_eq!(pages_of(7, 3), 3);
    assert_eq!(pages_of(5, 1), 5);
}

#[test]
fn a_page_behind_a_cursor_is_older_whatever_its_limit() {
    let mut store = DbStore::default();
    for (id, day) in [("a", 1), ("b", 1), ("c", 2), ("d", 2), ("e", 2), ("f", 3)] {
        store.records.insert(id.to_string(), record(id, "alice", None, day));
    }
    let first = store.bounties_by_creator("", 2, None, read_record);
    assert_eq!(first.bounties[0].id, "f");
    assert_eq!(first.next_cursor, Some(day(2)));
    for (limit, count, next) in [(1, 1, Some(day(1))), (2, 2, None), (-1, 2, None)] {
        let second = store.bounties_by_creator("", limit, first.next_cursor, read_record);
        assert_eq!(second.bounties.len(), count);
        assert!(second.bounties.iter().all(|b| b.created_at == day(1)));
        assert_eq!(second.next_cursor, next);
    }
}

#[test]
fn many_unreadable_records_change_nothing() {
    let db = new_shared_db();
    acquire_db(&db).records = sample().records;
    let before = list_bounties_by_creator(&db, "", 3, None, read_record).unwrap();
    for n in 0..50 {
        acquire_db(&db).records.insert(format!("broken {n}"), format!("not json {n}"));
    }
    let after = list_bounties_by_creator(&db, "", 3, None, read_record).unwrap();
    assert_eq!(ids(&before), vec!["five", "four", "three"]);
    assert_eq!(ids(&after), ids(&before));
    assert_eq!(before.next_cursor, Some(day(3)));
    assert_eq!(after.next_cursor, before.next_cursor);
}

#[test]
fn the_two_listings_are_counterparts() {
    let mut store = DbStore::default();
    let mut swapped = DbStore::default();
    for (id, creator, assignee, day) in [
        ("one", "alice", "carol", 1),
        ("two", "carol", "bob", 2),
        ("three", "bob", "carol", 3),
        ("four", "alice", "carol", 4),
    ] {
        store.records.insert(id.to_string(), record(id, creator, Some(assignee), day));
        swapped
            .records
            .insert(format!("other {id}"), record(id, assignee, Some(creator), day));
    }
    store.records.insert("broken".to_string(), "not json".to_string());
    swapped.records.insert("broken".to_string(), "not json either".to_string());
    let assigned = store.bounties_by_assignee("carol", 2, None, read_record);
    let made = swapped.bounties_by_creator("carol", 2, None, read_record);
    assert_eq!(ids(&assigned), vec!["four", "three"]);
    assert_eq!(ids(&made), ids(&assigned));
    assert_eq!(assigned.next_cursor, Some(day(3)));
    assert_eq!(made.next_cursor, assigned.next_cursor);
    assert_eq!(made.bounties[0].creator, "carol");
    assert_eq!(made.bounties[0].assignee, Some("alice".to_string()));
    let assigned = store.bounties_by_assignee("carol", 2, assigned.next_cursor, read_record);
    let made = swapped.bounties_by_creator("carol", 2, made.next_cursor, read_record);
    assert_eq!(ids(&assigned), vec!["one"]);
    assert_eq!(ids(&made), ids(&assigned));
    assert_eq!(made.next_cursor, None);
    assert_eq!(assigned.next_cursor, None);
}
