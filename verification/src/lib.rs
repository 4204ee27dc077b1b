//! Verified core of a small people directory web application: pagination of the
//! directory listing, the typeahead search with highlighted matches, the
//! infinite-scroll pager, the Vite asset manifest resolution and the seed data
//! statements.

pub mod assets;
pub mod people;
pub mod scroll;
pub mod seed;
pub mod text;
pub mod typeahead;
pub mod vite;
