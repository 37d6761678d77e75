//! The record produced by the crawl: a movie with title, director, year
//! and an optional star rating, plus the shallow per-listing entry that
//! precedes it. The site encodes ratings as 0 to 5 stars in half-star
//! steps; the library stores a rating exactly, in tenths of a star, so
//! `4.5` stars is `45` tenths.

use vstd::prelude::*;
use crate::text_util::{
    digit_value, is_digit_char,
    all_digit_chars, dec_str_of, digit_char_of, digits_value, find_pat_from, find_substr_from,
    parse_u32_digits, u32_to_string,
};

verus! {

/// A star rating, in tenths of a star.
#[derive(Clone, Copy, Debug, PartialEq, Eq, Structural)]
pub struct Rating {
    pub tenths: u32,
}

/// The site's ratings lie between 0 and 5 stars.
pub open spec fn rating_ok(r: Rating) -> bool {
    r.tenths <= 50
}

/// The rating a free-text token denotes, if any: a whole number of
/// stars, or stars and one fractional digit, within 0 to 5 stars.
pub open spec fn rating_tenths_of(s: Seq<char>) -> Option<u32> {
    match find_pat_from(s, seq!['.'], 0) {
        Option::None => if s.len() > 0 && all_digit_chars(s) && digits_value(s) <= 5 {
            Option::Some((digits_value(s) * 10) as u32)
        } else {
            Option::None
        },
        Option::Some(i) => {
            let ip = s.take(i);
            let fp = s.skip(i + 1);
            if ip.len() > 0 && all_digit_chars(ip) && fp.len() == 1 && all_digit_chars(fp)
                && digits_value(ip) * 10 + digits_value(fp) <= 50 {
                Option::Some((digits_value(ip) * 10 + digits_value(fp)) as u32)
            } else {
                Option::None
            }
        },
    }
}

/// How a rating is rendered in the output table: `40` tenths as `4`,
/// `45` tenths as `4.5`.
pub open spec fn rating_str_of(tenths: nat) -> Seq<char> {
    if tenths % 10 == 0 {
        dec_str_of(tenths / 10)
    } else {
        dec_str_of(tenths / 10) + seq!['.', digit_char_of(tenths % 10)]
    }
}

impl Rating {
    /// Parses a rating token such as `4.5` or `3`.
    pub fn parse(s: &str) -> (r: Option<Rating>)
        ensures
            match r {
                Some(v) => rating_tenths_of(s@) == Some(v.tenths) && rating_ok(v),
                None => rating_tenths_of(s@) is None,
            },
    {
        proof {
            reveal_strlit(".");
        }
        assert("."@ =~= seq!['.']);
        match find_substr_from(s, ".", 0) {
            None => {
                match parse_u32_digits(s) {
                    Some(v) => if v <= 5 {
                        Some(Rating { tenths: v * 10 })
                    } else {
                        None
                    },
                    None => {
                        proof {
                            if s@.len() > 0 && all_digit_chars(s@) && digits_value(s@) <= 5 {
                                assert(digits_value(s@) <= u32::MAX);
                            }
                        }
                        None
                    },
                }
            },
            Some(i) => {
                let n: usize = s.unicode_len();
                assert(i + 1 <= n);
                let ip = s.substring_char(0, i);
                assert(ip@ =~= s@.take(i as int));
                let fp = s.substring_char(i + 1, n);
                assert(fp@ =~= s@.skip(i + 1));
                let ipv = parse_u32_digits(ip);
                let fpv = parse_u32_digits(fp);
                let fp_len = fp.unicode_len();
                proof {
                    if fp@.len() == 1 && all_digit_chars(fp@) {
                        assert(fp@.drop_last().len() == 0);
                        assert(digits_value(fp@.drop_last()) == 0);
                        assert(digits_value(fp@) == digit_value(fp@.last()));
                        assert(is_digit_char(fp@[0]));
                    }
                }
                match (ipv, fpv) {
                    (Some(a), Some(b)) => {
                        if fp_len == 1 && a <= 5 && a * 10 + b <= 50 {
                            Some(Rating { tenths: a * 10 + b })
                        } else {
                            proof {
                                if s@.take(i as int).len() > 0 && all_digit_chars(s@.take(i as int))
                                    && s@.skip(i + 1).len() == 1 && all_digit_chars(s@.skip(i + 1))
                                    && digits_value(s@.take(i as int)) * 10 + digits_value(
                                    s@.skip(i + 1),
                                ) <= 50 {
                                    assert(digits_value(s@.take(i as int)) <= 5);
                                }
                            }
                            None
                        }
                    },
                    _ => {
                        proof {
                            if s@.take(i as int).len() > 0 && all_digit_chars(s@.take(i as int))
                                && s@.skip(i + 1).len() == 1 && all_digit_chars(s@.skip(i + 1))
                                && digits_value(s@.take(i as int)) * 10 + digits_value(
                                s@.skip(i + 1),
                            ) <= 50 {
                                assert(digits_value(s@.take(i as int)) <= 5);
                                assert(digits_value(s@.skip(i + 1)) <= 50);
                            }
                        }
                        None
                    },
                }
            },
        }
    }

    /// Renders the rating as the output table shows it.
    pub fn display_string(&self) -> (r: String)
        ensures
            r@ == rating_str_of(self.tenths as nat),
    {
        proof {
            reveal_strlit(".");
        }
        if self.tenths % 10 == 0 {
            u32_to_string(self.tenths / 10)
        } else {
            let mut out = u32_to_string(self.tenths / 10);
            out.append(".");
            let frac = u32_to_string(self.tenths % 10);
            out.append(frac.as_str());
            proof {
                assert("."@ =~= seq!['.']);
                assert(dec_str_of((self.tenths % 10) as nat) =~= seq![digit_char_of(
                    (self.tenths % 10) as nat,
                )]);
                assert(dec_str_of((self.tenths / 10) as nat) + "."@ + dec_str_of(
                    (self.tenths % 10) as nat,
                ) =~= rating_str_of(self.tenths as nat));
            }
            out
        }
    }
}

/// One movie record of the final output.
#[derive(Clone, Debug, PartialEq)]
pub struct Movie {
    pub title: String,
    pub director: String,
    pub year: u32,
    pub rating: Option<Rating>,
}

/// The invariant a record carries once built: non-empty title and
/// director, a positive year, and a rating within the site's range.
pub open spec fn movie_wf(m: Movie) -> bool {
    m.title@.len() > 0 && m.director@.len() > 0 && m.year >= 1 && match m.rating {
        Some(r) => rating_ok(r),
        None => true,
    }
}

/// The cell the output table shows for an optional rating: empty when
/// absent.
pub open spec fn rating_cell_of(r: Option<Rating>) -> Seq<char> {
    match r {
        Some(v) => rating_str_of(v.tenths as nat),
        None => Seq::empty(),
    }
}

impl Movie {
    /// The four output columns of this record, in order: title,
    /// director, year, rating.
    pub fn to_csvable_array(&self) -> (r: Vec<String>)
        ensures
            r@.len() == 4,
            r@[0]@ == self.title@,
            r@[1]@ == self.director@,
            r@[2]@ == dec_str_of(self.year as nat),
            r@[3]@ == rating_cell_of(self.rating),
    {
        let mut out: Vec<String> = Vec::new();
        out.push(self.title.clone());
        out.push(self.director.clone());
        out.push(u32_to_string(self.year));
        match &self.rating {
            Some(v) => out.push(v.display_string()),
            None => out.push(String::new()),
        }
        out
    }

    /// The header row of the output table.
    pub fn csv_titles() -> (r: Vec<&'static str>)
        ensures
            r@.len() == 4,
            r@[0]@ == "Title"@,
            r@[1]@ == "Directors"@,
            r@[2]@ == "Year"@,
            r@[3]@ == "Rating"@,
    {
        let mut out: Vec<&'static str> = Vec::new();
        out.push("Title");
        out.push("Directors");
        out.push("Year");
        out.push("Rating");
        out
    }
}

/// The shallow entry harvested from one listing page: the absolute
/// detail-page URL and, for the watched list, the listed rating.
#[derive(Debug)]
pub struct PreliminaryMovieInformation {
    pub movie_url: String,
    pub rating: Option<Rating>,
}

} // verus!
