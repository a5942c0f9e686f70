use blog_core::page::display_order;
use blog_core::page::finish_page;
use blog_core::page::page_of_posts;
use blog_core::page::plan_fetch;
use blog_core::page::probe_found;
use blog_core::page::CursorQuery;
use blog_core::page::Direction;
use blog_core::page::Post;

fn post(id: u32) -> Post {
    Post {
        post_id: id,
        title: format!("title {}", id),
        body: format!("body {}", id),
        username: String::from("author"),
        post_date: 1000 + id as i64,
        description: None,
    }
}

/// Keys `hi` down to `lo`, newest first, as the storage would return them.
fn table(hi: u32, lo: u32) -> Vec<Post> {
    let mut t = Vec::new();
    let mut id = hi;
    while id >= lo {
        t.push(post(id));
        id -= 1;
    }
    t
}

fn keys(posts: &[Post]) -> Vec<u32> {
    posts.iter().map(|p| p.post_id).collect()
}

#[test]
fn first_page_of_twelve() {
    let t = table(12, 1);
    let pg = page_of_posts(&t, &Direction::Newest, 5);
    assert_eq!(keys(&pg.items), vec![12, 11, 10, 9, 8]);
    assert_eq!(pg.prev, Some(8));
    assert_eq!(pg.next, None);
}

#[test]
fn before_page_of_twelve() {
    let t = table(12, 1);
    let pg = page_of_posts(&t, &Direction::Before(8), 5);
    assert_eq!(keys(&pg.items), vec![7, 6, 5, 4, 3]);
    assert_eq!(pg.prev, Some(3));
    assert_eq!(pg.next, Some(7));
}

#[test]
fn last_page_has_no_prev() {
    let t = table(12, 1);
    let pg = page_of_posts(&t, &Direction::Before(3), 5);
    assert_eq!(keys(&pg.items), vec![2, 1]);
    assert_eq!(pg.prev, None);
    assert_eq!(pg.next, Some(2));
}

#[test]
fn before_min_key_is_empty_boundary() {
    let t = table(12, 1);
    let pg = page_of_posts(&t, &Direction::Before(1), 5);
    assert!(pg.items.is_empty());
    assert_eq!(pg.prev, None);
    assert_eq!(pg.next, None);
}

#[test]
fn after_page_restores_display_order() {
    let t = table(12, 1);
    let pg = page_of_posts(&t, &Direction::After(7), 5);
    assert_eq!(keys(&pg.items), vec![12, 11, 10, 9, 8]);
    assert_eq!(pg.prev, Some(8));
    assert_eq!(pg.next, None);
}

#[test]
fn after_page_takes_nearest_newer_keys() {
    let t = table(12, 1);
    let pg = page_of_posts(&t, &Direction::After(9), 2);
    assert_eq!(keys(&pg.items), vec![11, 10]);
    assert_eq!(pg.prev, Some(10));
    assert_eq!(pg.next, Some(11));
}

#[test]
fn empty_table_yields_empty_page() {
    let t: Vec<Post> = Vec::new();
    let pg = page_of_posts(&t, &Direction::Newest, 5);
    assert!(pg.items.is_empty());
    assert_eq!(pg.prev, None);
    assert_eq!(pg.next, None);
}

#[test]
fn whole_table_on_one_page_has_no_markers() {
    let t = table(4, 1);
    let pg = page_of_posts(&t, &Direction::Newest, 10);
    assert_eq!(keys(&pg.items), vec![4, 3, 2, 1]);
    assert_eq!(pg.prev, None);
    assert_eq!(pg.next, None);
}

#[test]
fn before_chain_visits_every_post_once() {
    let t = table(12, 1);
    let mut seen: Vec<u32> = Vec::new();
    let mut pg = page_of_posts(&t, &Direction::Newest, 5);
    seen.extend(keys(&pg.items));
    let mut pages = 1;
    while let Some(k) = pg.prev {
        pg = page_of_posts(&t, &Direction::Before(k), 5);
        seen.extend(keys(&pg.items));
        pages += 1;
    }
    assert_eq!(pages, 3);
    assert_eq!(seen, vec![12, 11, 10, 9, 8, 7, 6, 5, 4, 3, 2, 1]);
}

#[test]
fn cursor_after_wins_over_before() {
    let q = CursorQuery { before: Some(3), after: Some(9) };
    assert_eq!(q.direction(), Direction::After(9));
    let q2 = CursorQuery { before: Some(3), after: None };
    assert_eq!(q2.direction(), Direction::Before(3));
    let q3 = CursorQuery::default();
    assert_eq!(q3.direction(), Direction::Newest);
}

#[test]
fn plan_fetch_matches_directions() {
    let newest = plan_fetch(&CursorQuery::default(), 5);
    assert!(!newest.ascending);
    assert_eq!(newest.above, None);
    assert_eq!(newest.below, None);
    assert_eq!(newest.limit, 5);

    let before = plan_fetch(&CursorQuery { before: Some(8), after: None }, 5);
    assert!(!before.ascending);
    assert_eq!(before.below, Some(8));
    assert_eq!(before.above, None);

    let after = plan_fetch(&CursorQuery { before: None, after: Some(8) }, 5);
    assert!(after.ascending);
    assert_eq!(after.above, Some(8));
    assert_eq!(after.below, None);
}

#[test]
fn display_order_reverses_ascending_fetch() {
    let asc = vec![post(8), post(9), post(10)];
    let r = display_order(asc, true);
    assert_eq!(keys(&r), vec![10, 9, 8]);
    let desc = vec![post(10), post(9)];
    let r2 = display_order(desc, false);
    assert_eq!(keys(&r2), vec![10, 9]);
}

#[test]
fn decomposed_storage_path_matches_reference_paginator() {
    let t = table(12, 1);
    let queries = [
        CursorQuery::default(),
        CursorQuery { before: Some(8), after: None },
        CursorQuery { before: None, after: Some(4) },
        CursorQuery { before: Some(1), after: None },
    ];
    for q in queries {
        let dir = q.direction();
        let plan = plan_fetch(&q, 5);
        // play the storage collaborator: run the planned query over the table
        let mut rows: Vec<Post> = t
            .iter()
            .filter(|p| {
                plan.above.map_or(true, |k| p.post_id > k)
                    && plan.below.map_or(true, |k| p.post_id < k)
            })
            .cloned()
            .collect();
        if plan.ascending {
            rows.reverse();
        }
        rows.truncate(plan.limit as usize);
        // then let the engine assemble the page from fetch and probes
        let items = display_order(rows, plan.ascending);
        let has_prev = items.last().map_or(false, |l| t.iter().any(|p| p.post_id < l.post_id));
        let has_next = items.first().map_or(false, |f| t.iter().any(|p| p.post_id > f.post_id));
        let assembled = finish_page(items, has_prev, has_next);
        let reference = page_of_posts(&t, &dir, 5);
        assert_eq!(assembled, reference);
    }
}

#[test]
fn probe_found_needs_a_positive_count_row() {
    assert!(probe_found(Some(3)));
    assert!(!probe_found(Some(0)));
    assert!(!probe_found(Some(-1)));
    assert!(!probe_found(None));
}

#[test]
fn finish_page_sets_markers_from_probes() {
    let items = vec![post(7), post(6), post(5)];
    let pg = finish_page(items, true, false);
    assert_eq!(pg.prev, Some(5));
    assert_eq!(pg.next, None);
    assert_eq!(keys(&pg.items), vec![7, 6, 5]);

    let none = finish_page(Vec::new(), true, true);
    assert_eq!(none.prev, None);
    assert_eq!(none.next, None);
}
