//! Photo-gallery management: photos belong to categories, and within each
//! category photos carry an explicit, gap-free display order. The ordering
//! engine assigns, shifts and preserves those positions as memberships are
//! added, removed or repositioned; every transition is verified to keep the
//! positions of a category exactly `1..=N`.
//!
//! The layers, bottom up: `models` holds the entities, `repo` the
//! membership rows of one category with the repository primitives, `order`
//! the abstract transitions and the laws proved over them, `engine` the
//! per-category operations tied to those transitions, and `gallery` the
//! whole store with entity CRUD, cascade deletes and the gallery views.
//! Around them, `plan` decides the writes a transactional store-backed
//! implementation must perform, and `config`, `auth`, `requests`,
//! `view_models`, `validation` and `health` carry the service's shapes.

pub mod auth;
pub mod config;
pub mod engine;
pub mod gallery;
pub mod health;
pub mod models;
pub mod order;
pub mod plan;
pub mod repo;
pub mod requests;
pub mod validation;
pub mod view_models;
