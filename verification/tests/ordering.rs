//! The ordering engine against the store: concrete scenarios for adding,
//! removing and moving memberships, and the errors each operation reports.

use enchanted_natures::gallery::PhotoRepository;
use enchanted_natures::models::Date;
use enchanted_natures::repo::OrderingError;

fn sample_date() -> Date {
    Date { year: 2021, month: 6, day: 15 }
}

/// A store with `n` photos and one category; returns (store, photo ids, category id).
fn store_with_photos(n: usize) -> (PhotoRepository, Vec<i32>, i32) {
    let mut repo = PhotoRepository::new();
    let mut ids = Vec::new();
    for k in 0..n {
        let photo = repo
            .add_photo(
                format!("photo {}", k),
                format!("photo-{}.jpg", k),
                "forest".to_string(),
                sample_date(),
            )
            .unwrap();
        ids.push(photo.id);
    }
    let category = repo.add_category("nature".to_string()).unwrap();
    (repo, ids, category.id)
}

fn ordered_ids(repo: &PhotoRepository, category_id: i32) -> Vec<i32> {
    repo.get_photos_in_category(category_id)
        .unwrap()
        .iter()
        .map(|p| p.id)
        .collect()
}

#[test]
fn insert_in_middle_then_remove() {
    // Category C holds [A@1, B@2, C@3]; adding D at position 2 must give
    // [A@1, D@2, B@3, C@4]; removing B must give [A@1, D@2, C@3].
    let (mut repo, ids, cat) = store_with_photos(4);
    let (a, b, c, d) = (ids[0], ids[1], ids[2], ids[3]);
    repo.add_photo_to_category(a, cat, None).unwrap();
    repo.add_photo_to_category(b, cat, None).unwrap();
    repo.add_photo_to_category(c, cat, None).unwrap();
    assert_eq!(ordered_ids(&repo, cat), vec![a, b, c]);

    repo.add_photo_to_category(d, cat, Some(2)).unwrap();
    assert_eq!(ordered_ids(&repo, cat), vec![a, d, b, c]);

    let removed = repo.remove_photo_from_category(b, cat).unwrap();
    assert_eq!(removed, 3);
    assert_eq!(ordered_ids(&repo, cat), vec![a, d, c]);
}

#[test]
fn appends_assign_next_position() {
    // Empty category E; adding X appends at 1, adding Y appends at 2.
    let (mut repo, ids, cat) = store_with_photos(2);
    let (x, y) = (ids[0], ids[1]);
    assert_eq!(ordered_ids(&repo, cat), Vec::<i32>::new());
    repo.add_photo_to_category(x, cat, None).unwrap();
    assert_eq!(ordered_ids(&repo, cat), vec![x]);
    repo.add_photo_to_category(y, cat, None).unwrap();
    assert_eq!(ordered_ids(&repo, cat), vec![x, y]);
}

#[test]
fn requested_position_boundaries() {
    let (mut repo, ids, cat) = store_with_photos(3);
    repo.add_photo_to_category(ids[0], cat, None).unwrap();
    repo.add_photo_to_category(ids[1], cat, None).unwrap();
    // Position 0 is rejected.
    assert_eq!(
        repo.add_photo_to_category(ids[2], cat, Some(0)),
        Err(OrderingError::InvalidPosition)
    );
    // Position N + 2 is rejected (count is 2 here).
    assert_eq!(
        repo.add_photo_to_category(ids[2], cat, Some(4)),
        Err(OrderingError::InvalidPosition)
    );
    // A failed call leaves the order untouched.
    assert_eq!(ordered_ids(&repo, cat), vec![ids[0], ids[1]]);
    // Position N + 1 behaves as an append.
    repo.add_photo_to_category(ids[2], cat, Some(3)).unwrap();
    assert_eq!(ordered_ids(&repo, cat), vec![ids[0], ids[1], ids[2]]);
}

#[test]
fn duplicate_membership_is_rejected() {
    let (mut repo, ids, cat) = store_with_photos(1);
    repo.add_photo_to_category(ids[0], cat, None).unwrap();
    assert_eq!(
        repo.add_photo_to_category(ids[0], cat, None),
        Err(OrderingError::DuplicateMembership)
    );
    assert_eq!(
        repo.add_photo_to_category(ids[0], cat, Some(1)),
        Err(OrderingError::DuplicateMembership)
    );
    assert_eq!(ordered_ids(&repo, cat), vec![ids[0]]);
}

#[test]
fn absent_entities_are_reported() {
    let (mut repo, ids, cat) = store_with_photos(1);
    assert_eq!(
        repo.add_photo_to_category(999, cat, None),
        Err(OrderingError::PhotoNotFound)
    );
    assert_eq!(
        repo.add_photo_to_category(ids[0], 999, None),
        Err(OrderingError::CategoryNotFound)
    );
    assert_eq!(
        repo.remove_photo_from_category(ids[0], 999),
        Err(OrderingError::CategoryNotFound)
    );
    assert_eq!(
        repo.remove_photo_from_category(ids[0], cat),
        Err(OrderingError::MembershipNotFound)
    );
    assert_eq!(
        repo.move_photo_in_category(ids[0], cat, 1),
        Err(OrderingError::MembershipNotFound)
    );
}

#[test]
fn add_then_remove_restores_order() {
    // Adding a photo at position 2 and removing it again restores the
    // exact prior sequence for all other members.
    let (mut repo, ids, cat) = store_with_photos(4);
    repo.add_photo_to_category(ids[0], cat, None).unwrap();
    repo.add_photo_to_category(ids[1], cat, None).unwrap();
    repo.add_photo_to_category(ids[2], cat, None).unwrap();
    let before = ordered_ids(&repo, cat);
    repo.add_photo_to_category(ids[3], cat, Some(2)).unwrap();
    let removed = repo.remove_photo_from_category(ids[3], cat).unwrap();
    assert_eq!(removed, 2);
    assert_eq!(ordered_ids(&repo, cat), before);
}

#[test]
fn move_membership_repositions() {
    let (mut repo, ids, cat) = store_with_photos(3);
    repo.add_photo_to_category(ids[0], cat, None).unwrap();
    repo.add_photo_to_category(ids[1], cat, None).unwrap();
    repo.add_photo_to_category(ids[2], cat, None).unwrap();
    repo.move_photo_in_category(ids[2], cat, 1).unwrap();
    assert_eq!(ordered_ids(&repo, cat), vec![ids[2], ids[0], ids[1]]);
    // The count is unchanged by a move, so position N + 1 is invalid here.
    assert_eq!(
        repo.move_photo_in_category(ids[0], cat, 4),
        Err(OrderingError::InvalidPosition)
    );
    assert_eq!(
        repo.move_photo_in_category(ids[0], cat, 0),
        Err(OrderingError::InvalidPosition)
    );
    repo.move_photo_in_category(ids[2], cat, 3).unwrap();
    assert_eq!(ordered_ids(&repo, cat), vec![ids[0], ids[1], ids[2]]);
}

#[test]
fn concurrent_style_appends_fill_positions_bijectively() {
    // Appends of distinct photos, serialized in some order, assign exactly
    // the positions 1..=N with no gaps and no duplicates.
    let (mut repo, ids, cat) = store_with_photos(8);
    for id in &ids {
        repo.add_photo_to_category(*id, cat, None).unwrap();
    }
    let order = ordered_ids(&repo, cat);
    assert_eq!(order.len(), 8);
    assert_eq!(order, ids);
    let mut seen = vec![false; 8];
    for (index, id) in order.iter().enumerate() {
        let position = index + 1;
        assert!((1..=8).contains(&position));
        let photo_index = ids.iter().position(|x| x == id).unwrap();
        assert!(!seen[photo_index]);
        seen[photo_index] = true;
    }
    assert!(seen.iter().all(|s| *s));
}

#[test]
fn delete_photo_cascades_and_closes_gaps() {
    let mut repo = PhotoRepository::new();
    let mut ids = Vec::new();
    for k in 0..3 {
        let p = repo
            .add_photo(
                format!("photo {}", k),
                format!("photo-{}.jpg", k),
                "lake".to_string(),
                sample_date(),
            )
            .unwrap();
        ids.push(p.id);
    }
    let c1 = repo.add_category("first".to_string()).unwrap().id;
    let c2 = repo.add_category("second".to_string()).unwrap().id;
    for id in &ids {
        repo.add_photo_to_category(*id, c1, None).unwrap();
    }
    repo.add_photo_to_category(ids[1], c2, None).unwrap();
    repo.add_photo_to_category(ids[0], c2, None).unwrap();

    repo.delete_photo(ids[1]).unwrap();
    assert_eq!(ordered_ids(&repo, c1), vec![ids[0], ids[2]]);
    assert_eq!(ordered_ids(&repo, c2), vec![ids[0]]);
    assert!(matches!(
        repo.get_photo(ids[1]),
        Err(OrderingError::PhotoNotFound)
    ));
    // Deleting an absent photo still succeeds and changes nothing.
    repo.delete_photo(ids[1]).unwrap();
    assert_eq!(ordered_ids(&repo, c1), vec![ids[0], ids[2]]);
}

#[test]
fn delete_category_takes_memberships_with_it() {
    let (mut repo, ids, cat) = store_with_photos(2);
    repo.add_photo_to_category(ids[0], cat, None).unwrap();
    repo.delete_category(cat).unwrap();
    assert!(matches!(
        repo.get_photos_in_category(cat),
        Err(OrderingError::CategoryNotFound)
    ));
    // The photos themselves survive the cascade.
    assert!(repo.get_photo(ids[0]).is_ok());
    // Deleting an absent category still succeeds.
    repo.delete_category(cat).unwrap();
}
