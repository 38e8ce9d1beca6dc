//! Search: what a page is indexed under, and what a query finds.

pub mod cjk;
pub mod compact;
pub mod compile;
pub mod consolidate;
pub mod courses;
pub mod documents;
pub mod entities;
pub mod formats;
pub mod hits;
pub mod mentions;
pub mod project;
pub mod quickwit_split;
pub mod recall;
pub mod splits;
pub mod tuning;
pub mod vector;
