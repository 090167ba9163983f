//! A star catalog with nearest-neighbour search.
//!
//! A catalog file is text: one line that is dropped, a header row, and one
//! comma-separated row for each star. [`load::load_stars`] reads it into
//! [`star::Star`] records, whose coordinates and magnitudes are held in fixed
//! point, as counts of millionths. [`index::StarIndex`] keeps the records with
//! an R*-tree over their positions, and answers queries for the stars nearest
//! to a point, nearest first, either all at once or one at a time.

pub mod ascii;
pub mod bytes;
pub mod decimal;
pub mod index;
pub mod load;
pub mod number;
pub mod ranking;
pub mod rtree;
pub mod seqs;
pub mod star;
pub mod table;
