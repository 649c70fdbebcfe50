//! The request and response shapes of the service's endpoints, as plain
//! values. The surrounding program derives its wire formats on copies of
//! these.

use vstd::prelude::*;

use crate::models::{Category, Date, Photo};

verus! {

/// Body of the call linking a photo into a category, with the display
/// position it may request.
pub struct AddPhotoToCategoryRequest {
    pub photo_id: i32,
    pub display_order: Option<i32>,
}

/// Body of the call creating a category.
pub struct CreateCategoryRequest {
    pub name: String,
}

/// Path parameters of the call reading one category.
pub struct CategoryGetByIdRequest {
    pub id: i32,
}

/// Response of the call reading one category.
pub struct CategoryGetByIdResponse {
    pub category: Category,
    pub photos: Vec<Photo>,
}

/// The membership change a category patch asks for.
pub struct UpdatePhotoCategoryRequest {
    pub photo_id: i32,
}

/// Body of the call patching a category.
pub enum PatchCategoryRequestBody {
    AddPhotoToCategory(UpdatePhotoCategoryRequest),
}

/// Acknowledgement that a photo was linked into a category.
pub struct PhotoAddedToCategory;

/// Acknowledgement that a photo was unlinked from a category.
pub struct PhotoRemovedFromCategory;

/// Response of the call patching a category.
pub enum UpdatePhotoCategoryResponse {
    PhotoAddedToCategory,
    PhotoRemovedFromCategory,
}

/// Failure of the call creating a category.
pub enum CategoryError {
    CategoryAlreadyExists,
}

/// Query restricting a photo listing to one category.
pub struct CategoryQuery {
    pub category_id: i32,
}

/// Path parameters of the call reading one photo.
pub struct GetPhotoParams {
    pub id: i32,
}

/// Response of the call listing every photo.
pub struct PhotoGetAllResponse;

/// Body of the call updating a photo: each field present replaces the
/// stored one, each field absent keeps it.
pub struct PhotoUpdateRequest {
    pub title: Option<String>,
    pub location_taken: Option<String>,
    pub date_taken: Option<Date>,
    pub filename: Option<String>,
}

/// Response of the call creating a photo.
pub struct PhotoCreatedResponse {
    pub photo: Photo,
}

/// The outcomes of the call creating a photo.
pub enum CreatePhotoResponses {
    Created(Photo),
    AlreadyExist,
    BadRequest,
}

/// The outcomes of the call updating a photo.
pub enum UpdatePhotoResponses {
    Updated(Photo),
    DoesNotExist,
    BadRequest,
}

/// The outcomes of the call listing photos.
pub enum GetPhotosResponses {
    Success(Vec<Photo>),
}

/// The outcomes of the call reading one photo.
pub enum GetPhotoResponses {
    Success(crate::view_models::PhotoViewModel),
    NotFound,
}

} // verus!
