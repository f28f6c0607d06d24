//! Reconstruction of a weekly menu from the positioned text of a rendered
//! page: text fragments are merged into runs, repeated label lines dropped,
//! runs grouped into day columns and each column's header read as a date.
pub mod calendar;
pub mod catalogue;
pub mod columns;
pub mod day;
pub mod error;
pub mod fragment;
pub mod html;
pub mod response;
pub mod rows;
pub mod run;
pub mod text;
pub mod week;
