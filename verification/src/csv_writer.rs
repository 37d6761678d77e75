//! Assembly of the output table: the header row and one row of four
//! cells per record. Writing the rows to a file is the caller's
//! business; the rows themselves are pinned down here.

use vstd::prelude::*;
use crate::movie::{rating_cell_of, Movie};
use crate::text_util::dec_str_of;

verus! {

pub struct CsvWriter {}

/// The cells of one record's row.
pub open spec fn movie_row(m: Movie) -> Seq<Seq<char>> {
    seq![m.title@, m.director@, dec_str_of(m.year as nat), rating_cell_of(m.rating)]
}

/// The cells of the header row.
pub open spec fn header_row() -> Seq<Seq<char>> {
    seq!["Title"@, "Directors"@, "Year"@, "Rating"@]
}

/// A row as plain character sequences.
pub open spec fn row_view(row: Seq<String>) -> Seq<Seq<char>> {
    row.map_values(|s: String| s@)
}

impl CsvWriter {
    /// The full output table of a record list: the header row first,
    /// then one row per record, in the records' order.
    pub fn csv_rows(movies: &Vec<Movie>) -> (r: Vec<Vec<String>>)
        ensures
            r@.len() == movies@.len() + 1,
            row_view(r@[0]@) == header_row(),
            forall|k: int|
                0 <= k < movies@.len() ==> row_view(#[trigger] r@[k + 1]@) == movie_row(
                    movies@[k],
                ),
    {
        let mut out: Vec<Vec<String>> = Vec::new();
        let mut header: Vec<String> = Vec::new();
        header.push(String::from_str("Title"));
        header.push(String::from_str("Directors"));
        header.push(String::from_str("Year"));
        header.push(String::from_str("Rating"));
        assert(row_view(header@) =~= header_row());
        out.push(header);
        let n = movies.len();
        let mut i: usize = 0;
        while i < n
            invariant
                0 <= i <= n,
                n == movies@.len(),
                out@.len() == i + 1,
                row_view(out@[0]@) == header_row(),
                forall|k: int|
                    0 <= k < i ==> row_view(#[trigger] out@[k + 1]@) == movie_row(movies@[k]),
            decreases n - i,
        {
            let row = movies[i].to_csvable_array();
            proof {
                assert(row_view(row@) =~= movie_row(movies@[i as int]));
            }
            out.push(row);
            i = i + 1;
        }
        out
    }
}

} // verus!
