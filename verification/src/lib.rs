//! Leaderboard export for a points-tracking service: walks the paged
//! leaderboard, cuts the result off at a point threshold, and renders the
//! surviving rows as CSV.
//!
//! The library does no I/O. A program that uses it asks [`paging`] which
//! page to request, builds the address with [`request`], hands each page it
//! receives back to [`paging`], which judges it with [`filter`], and writes
//! the text that [`sink`] makes of the rows into the file that [`target`]
//! names. What holds of every such run is stated and proved in [`walk`].

pub mod data;
pub mod decimal;
pub mod error;
pub mod filter;
pub mod paging;
pub mod request;
pub mod sink;
pub mod target;
pub mod walk;
