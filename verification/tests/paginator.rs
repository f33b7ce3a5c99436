use family_album::model::{Mediafile, Root};
use family_album::paginator::{collect_pages, walk_pages, Paginator};

fn photo(id: i64) -> Mediafile {
    Mediafile {
        id,
        uuid: format!("uuid-{id}"),
        user_id: "1".to_string(),
        media_type: "photo".to_string(),
        original_hash: "h".to_string(),
        has_comment: false,
        comments: Vec::new(),
        took_at: 0,
        audience_type: "family".to_string(),
        media_width: 1,
        media_height: 1,
        media_device_model: None,
        device_file_path: None,
        video_duration: 0,
        content_type: "image/jpeg".to_string(),
        origin: "o".to_string(),
        thumbnail_generated: true,
        expiring_url: format!("https://x/{id}"),
        expiring_thumb_url: String::new(),
        expiring_video_url: None,
    }
}

fn page(number: i32, has_next: bool, ids: &[i64]) -> Root {
    Root {
        has_next,
        has_prev: number > 1,
        current_page: number,
        media_files: ids.iter().map(|id| photo(*id)).collect(),
    }
}

fn ids(items: &[Mediafile]) -> Vec<i64> {
    items.iter().map(|m| m.id).collect()
}

#[test]
fn two_pages_give_three_items_in_page_order() {
    let items = collect_pages(vec![page(1, true, &[11, 12]), page(2, false, &[21])]);
    assert_eq!(ids(&items), vec![11, 12, 21]);
}

#[test]
fn walk_stops_at_the_first_page_without_successor() {
    let items = collect_pages(vec![
        page(1, true, &[1]),
        page(2, false, &[2, 3]),
        page(3, true, &[4]),
        page(4, false, &[5]),
    ]);
    assert_eq!(ids(&items), vec![1, 2, 3]);
}

#[test]
fn items_are_not_deduplicated() {
    let items = collect_pages(vec![page(1, true, &[7, 7]), page(2, false, &[7])]);
    assert_eq!(ids(&items), vec![7, 7, 7]);
}

#[test]
fn no_pages_give_no_items() {
    assert!(collect_pages(Vec::new()).is_empty());
    assert!(collect_pages(vec![page(1, false, &[])]).is_empty());
}

#[test]
fn paginator_asks_for_increasing_pages_from_one() {
    let mut walk = Paginator::new();
    assert_eq!(walk.next_request(), Some(1));
    assert!(!walk.is_finished());
    walk.accept(page(1, true, &[1, 2]));
    assert_eq!(walk.next_request(), Some(2));
    walk.accept(page(2, true, &[]));
    assert_eq!(walk.next_request(), Some(3));
    walk.accept(page(3, false, &[3]));
    assert_eq!(walk.next_request(), None);
    assert!(walk.is_finished());
    assert_eq!(ids(&walk.into_items()), vec![1, 2, 3]);
}

#[test]
fn finished_paginator_takes_in_nothing_more() {
    let mut walk = Paginator::new();
    walk.accept(page(1, false, &[1]));
    walk.accept(page(2, true, &[2]));
    assert!(walk.is_finished());
    assert_eq!(walk.next_request(), None);
    assert_eq!(ids(&walk.into_items()), vec![1]);
}

#[test]
fn pages_are_asked_for_in_order_up_to_the_last_one() {
    let (items, asked) = walk_pages(vec![
        page(1, true, &[1]),
        page(2, true, &[2]),
        page(3, false, &[3]),
        page(4, false, &[4]),
    ]);
    assert_eq!(ids(&items), vec![1, 2, 3]);
    assert_eq!(asked, vec![1, 2, 3]);

    let (items, asked) = walk_pages(vec![page(1, false, &[9]), page(2, true, &[8])]);
    assert_eq!(ids(&items), vec![9]);
    assert_eq!(asked, vec![1]);

    let (items, asked) = walk_pages(Vec::new());
    assert!(items.is_empty());
    assert!(asked.is_empty());
}
