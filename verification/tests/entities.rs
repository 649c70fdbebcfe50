//! The entity side of the store: photo and category CRUD, the merge
//! semantics of updates, and the gallery views.

use enchanted_natures::gallery::PhotoRepository;
use enchanted_natures::models::Date;
use enchanted_natures::view_models::{CategoryDisplayModel, CategoryViewModel, PhotoViewModel};

fn sample_date() -> Date {
    Date { year: 2020, month: 1, day: 2 }
}

#[test]
fn add_photo_assigns_fresh_ids_and_stores_fields() {
    let mut repo = PhotoRepository::new();
    let p1 = repo
        .add_photo(
            "sunrise".to_string(),
            "sunrise.jpg".to_string(),
            "hill".to_string(),
            sample_date(),
        )
        .unwrap();
    let p2 = repo
        .add_photo(
            "sunset".to_string(),
            "sunset.jpg".to_string(),
            "hill".to_string(),
            sample_date(),
        )
        .unwrap();
    assert_ne!(p1.id, p2.id);
    let stored = repo.get_photo(p1.id).unwrap();
    assert_eq!(stored.id, p1.id);
    assert_eq!(stored.title, "sunrise");
    assert_eq!(stored.filename, "sunrise.jpg");
    assert_eq!(stored.location_taken, "hill");
    assert_eq!(stored.date_taken, sample_date());
    assert_eq!(repo.get_photos().unwrap().len(), 2);
}

#[test]
fn update_photo_replaces_only_given_fields() {
    let mut repo = PhotoRepository::new();
    let p = repo
        .add_photo(
            "sunrise".to_string(),
            "sunrise.jpg".to_string(),
            "hill".to_string(),
            sample_date(),
        )
        .unwrap();
    let updated = repo
        .update_photo(p.id, Some("dawn".to_string()), None, None, None)
        .unwrap();
    assert_eq!(updated.title, "dawn");
    assert_eq!(updated.filename, "sunrise.jpg");
    assert_eq!(updated.location_taken, "hill");
    assert_eq!(updated.date_taken, sample_date());
    let stored = repo.get_photo(p.id).unwrap();
    assert_eq!(stored.title, "dawn");
    assert!(repo
        .update_photo(999, Some("x".to_string()), None, None, None)
        .is_err());
}

#[test]
fn categories_are_stored_and_listed() {
    let mut repo = PhotoRepository::new();
    let c1 = repo.add_category("woods".to_string()).unwrap();
    let c2 = repo.add_category("coast".to_string()).unwrap();
    assert_ne!(c1.id, c2.id);
    let all = repo.get_categories().unwrap();
    assert_eq!(all.len(), 2);
    assert_eq!(all[0].name, "woods");
    assert_eq!(all[1].name, "coast");
}

#[test]
fn get_category_returns_photos_in_display_order() {
    let mut repo = PhotoRepository::new();
    let a = repo
        .add_photo(
            "a".to_string(),
            "a.jpg".to_string(),
            "x".to_string(),
            sample_date(),
        )
        .unwrap();
    let b = repo
        .add_photo(
            "b".to_string(),
            "b.jpg".to_string(),
            "x".to_string(),
            sample_date(),
        )
        .unwrap();
    let cat = repo.add_category("pair".to_string()).unwrap();
    repo.add_photo_to_category(b.id, cat.id, None).unwrap();
    repo.add_photo_to_category(a.id, cat.id, Some(1)).unwrap();
    let (category, photos) = repo.get_category(cat.id).unwrap();
    assert_eq!(category.id, cat.id);
    assert_eq!(category.name, "pair");
    let ids: Vec<i32> = photos.iter().map(|p| p.id).collect();
    assert_eq!(ids, vec![a.id, b.id]);

    let display = CategoryDisplayModel::from((category, photos));
    assert_eq!(display.id, cat.id);
    assert_eq!(display.name, "pair");
    assert_eq!(display.photos.len(), 2);
    assert_eq!(display.photos[0].id, a.id);
    assert_eq!(display.photos[0].title, "a");
    assert_eq!(display.photos[1].id, b.id);

    let direct = repo.category_display(cat.id).unwrap();
    assert_eq!(direct.id, cat.id);
    assert_eq!(direct.name, "pair");
    let direct_ids: Vec<i32> = direct.photos.iter().map(|p| p.id).collect();
    assert_eq!(direct_ids, vec![a.id, b.id]);
    assert!(repo.category_display(999).is_err());
}

#[test]
fn photo_view_model_conversions() {
    let mut repo = PhotoRepository::new();
    let p = repo
        .add_photo(
            "peak".to_string(),
            "peak.jpg".to_string(),
            "alps".to_string(),
            sample_date(),
        )
        .unwrap();
    let view = PhotoViewModel::from(repo.get_photo(p.id).unwrap());
    assert_eq!(view.id, p.id);
    assert_eq!(view.title, "peak");
    assert_eq!(view.filename, "peak.jpg");
    assert_eq!(view.location_taken, "alps");
    assert_eq!(view.date_taken, sample_date());
    let c = repo.add_category("mountains".to_string()).unwrap();
    let category_view = CategoryViewModel::from(c);
    assert_eq!(category_view.name, "mountains");
}
