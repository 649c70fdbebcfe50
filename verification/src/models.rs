//! The entity model: photos, categories, and the membership row linking
//! them. Dates and timestamps are carried as plain values (year/month/day,
//! and a logical instant), as a relational store or an exchange format
//! holds them.

use vstd::prelude::*;

verus! {

/// A calendar date, as plain year, month and day values.
#[derive(Clone, Copy, Debug, PartialEq, Eq, Structural)]
pub struct Date {
    pub year: i32,
    pub month: u8,
    pub day: u8,
}

impl Date {
    /// The ranges a calendar date satisfies.
    pub open spec fn wf(self) -> bool {
        1 <= self.month <= 12 && 1 <= self.day <= 31
    }
}

/// A stored photo: surrogate key, descriptive fields, the date the photo
/// was taken, and the instants it was created and last updated.
pub struct Photo {
    pub id: i32,
    pub title: String,
    pub filename: String,
    pub location_taken: String,
    pub date_taken: Date,
    pub created_at: i64,
    pub updated_at: i64,
}

impl Photo {
    /// A field-for-field copy.
    pub fn duplicate(&self) -> (r: Photo)
        ensures
            r == *self,
    {
        Photo {
            id: self.id,
            title: self.title.clone(),
            filename: self.filename.clone(),
            location_taken: self.location_taken.clone(),
            date_taken: self.date_taken,
            created_at: self.created_at,
            updated_at: self.updated_at,
        }
    }
}

/// A stored category: surrogate key, name, and creation/update instants.
pub struct Category {
    pub id: i32,
    pub name: String,
    pub created_at: i64,
    pub updated_at: i64,
}

impl Category {
    /// Assemble a category value from its fields.
    pub fn new(id: i32, name: String, created_at: i64, updated_at: i64) -> (r: Self)
        ensures
            r.id == id,
            r.name == name,
            r.created_at == created_at,
            r.updated_at == updated_at,
    {
        Category { id, name, created_at, updated_at }
    }

    /// A field-for-field copy.
    pub fn duplicate(&self) -> (r: Category)
        ensures
            r == *self,
    {
        Category {
            id: self.id,
            name: self.name.clone(),
            created_at: self.created_at,
            updated_at: self.updated_at,
        }
    }
}

/// A category together with its photos in display order.
pub type CategoryPhotos = (Category, Vec<Photo>);

/// One row of the membership table: the link between a photo and a
/// category, with its surrogate key and the photo's rank in the category.
#[derive(Clone, Copy, Debug, PartialEq, Eq, Structural)]
pub struct PhotoCategory {
    pub id: i32,
    pub display_order: i32,
    pub photo_id: i32,
    pub category_id: i32,
}

} // verus!
