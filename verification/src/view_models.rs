//! View models: the shapes the service's responses carry, with the
//! conversions from the stored entities.

use vstd::prelude::*;

use crate::models::{Category, CategoryPhotos, Date, Photo};

verus! {

/// A photo as a response carries it.
pub struct PhotoViewModel {
    pub id: i32,
    pub title: String,
    pub filename: String,
    pub location_taken: String,
    pub date_taken: Date,
}

/// The view model a stored photo maps to.
pub open spec fn photo_view_of(p: Photo) -> PhotoViewModel {
    PhotoViewModel {
        id: p.id,
        title: p.title,
        filename: p.filename,
        location_taken: p.location_taken,
        date_taken: p.date_taken,
    }
}

impl PhotoViewModel {
    /// Assemble a photo view model from its fields.
    pub fn new(
        id: i32,
        title: String,
        filename: String,
        location_taken: String,
        date_taken: Date,
    ) -> (r: Self)
        ensures
            r.id == id,
            r.title == title,
            r.filename == filename,
            r.location_taken == location_taken,
            r.date_taken == date_taken,
    {
        PhotoViewModel { id, title, filename, location_taken, date_taken }
    }
}

impl From<Photo> for PhotoViewModel {
    fn from(value: Photo) -> (r: Self) {
        PhotoViewModel {
            id: value.id,
            title: value.title,
            filename: value.filename,
            location_taken: value.location_taken,
            date_taken: value.date_taken,
        }
    }
}

impl vstd::std_specs::convert::FromSpecImpl<Photo> for PhotoViewModel {
    open spec fn obeys_from_spec() -> bool {
        true
    }

    open spec fn from_spec(v: Photo) -> Self {
        photo_view_of(v)
    }
}

/// A category as a response carries it.
pub struct CategoryViewModel {
    pub id: i32,
    pub name: String,
}

/// The view model a stored category maps to.
pub open spec fn category_view_of(c: Category) -> CategoryViewModel {
    CategoryViewModel { id: c.id, name: c.name }
}

impl From<Category> for CategoryViewModel {
    fn from(value: Category) -> (r: Self) {
        CategoryViewModel { id: value.id, name: value.name }
    }
}

impl vstd::std_specs::convert::FromSpecImpl<Category> for CategoryViewModel {
    open spec fn obeys_from_spec() -> bool {
        true
    }

    open spec fn from_spec(v: Category) -> Self {
        category_view_of(v)
    }
}

/// A photo together with the categories it belongs to.
pub struct PhotoDisplayModel {
    pub id: i32,
    pub title: String,
    pub name: String,
    pub filename: String,
    pub url: String,
    pub categories: Vec<CategoryViewModel>,
}

/// A category's display view: its metadata and its photos, already in
/// display order.
pub struct CategoryDisplayModel {
    pub id: i32,
    pub name: String,
    pub photos: Vec<PhotoViewModel>,
}

impl CategoryDisplayModel {
    /// Build the display view of a category from the category and its
    /// ordered photos: the metadata is copied and each photo becomes its
    /// view model, in the same order.
    pub fn from(value: CategoryPhotos) -> (r: Self)
        ensures
            r.id == value.0.id,
            r.name == value.0.name,
            r.photos@.len() == value.1@.len(),
            forall|k: int|
                0 <= k < value.1@.len() ==> (#[trigger] r.photos@[k]) == photo_view_of(
                    value.1@[k],
                ),
    {
        let (category, photos) = value;
        let n = photos.len();
        let mut view_photos: Vec<PhotoViewModel> = Vec::new();
        let mut k: usize = 0;
        while k < n
            invariant
                n == photos@.len(),
                0 <= k <= n,
                view_photos@.len() == k,
                forall|j: int|
                    0 <= j < k ==> (#[trigger] view_photos@[j]) == photo_view_of(photos@[j]),
            decreases n - k,
        {
            let p = &photos[k];
            view_photos.push(
                PhotoViewModel::new(
                    p.id,
                    p.title.clone(),
                    p.filename.clone(),
                    p.location_taken.clone(),
                    p.date_taken,
                ),
            );
            k += 1;
        }
        CategoryDisplayModel { id: category.id, name: category.name, photos: view_photos }
    }
}

} // verus!
