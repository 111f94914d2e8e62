//! Verified core of a blog back end: front-matter framing, slugs, gallery
//! listing decisions, pagination, the photo-wall cache and the timeline order.
pub mod text;
pub mod markdown;
pub mod pattern;
pub mod slug;
pub mod gallery;
pub mod photo;
pub mod api;
pub mod blog;
pub mod timeline;
