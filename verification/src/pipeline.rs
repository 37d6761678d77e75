//! Aggregation of the crawl: choosing the listing strategy per list
//! kind, flattening per-page entries, merging detail results with
//! listed ratings while dropping failed items, and the final sort of
//! the records by title.

use vstd::prelude::*;
use crate::movie::{movie_wf, rating_ok, Movie, PreliminaryMovieInformation, Rating};
use crate::movie_extractor::{
    dedup_first, watchlist_urls_of, watched_entries_of, prelim_view, MovieExtractor,
};
use crate::html::html_elements;
use crate::text_util::{lemma_lex_le_total, lemma_lex_le_trans, lex_le, str_lex_le};
use crate::urls::{get_watched_url_for_page, get_watchlist_url_for_page, watched_url_spec,
    watchlist_url_spec};

verus! {

/// Which of the two tracked lists is being crawled; it selects the URL
/// template and the listing-extraction strategy, nothing else.
#[derive(Clone, Copy, Debug, PartialEq, Eq, Structural)]
pub enum ListKind {
    Watchlist,
    WatchedList,
}

/// The listing-page address of the given kind.
pub fn url_for_page(kind: ListKind, user: &str, page: i32) -> (r: String)
    requires
        page >= 1,
    ensures
        kind is Watchlist ==> r@ == watchlist_url_spec(user@, page as int),
        kind is WatchedList ==> r@ == watched_url_spec(user@, page as int),
{
    match kind {
        ListKind::Watchlist => get_watchlist_url_for_page(user, page),
        ListKind::WatchedList => get_watched_url_for_page(user, page),
    }
}

/// The preliminary entries of one listing page, extracted by the
/// strategy of the given kind.
pub fn preliminary_info_for(kind: ListKind, page_html: &str) -> (r: Vec<
    PreliminaryMovieInformation,
>)
    ensures
        kind is Watchlist ==> ({
            let urls = dedup_first(watchlist_urls_of(html_elements(page_html@)));
            r@.len() == urls.len() && (forall|k: int|
                0 <= k < r@.len() ==> (#[trigger] r@[k]).movie_url@ == urls[k] && r@[k].rating
                    is None)
        }),
        kind is WatchedList ==> r@.map_values(|p: PreliminaryMovieInformation| prelim_view(p))
            == watched_entries_of(page_html@),
{
    match kind {
        ListKind::Watchlist => MovieExtractor::get_preliminary_info_for_watchlist(page_html),
        ListKind::WatchedList => MovieExtractor::get_preliminary_info_for_watched_movies(
            page_html,
        ),
    }
}

// ---------------------------------------------------------------------
// Flattening per-page entries
// ---------------------------------------------------------------------

/// All pages' entries, page order kept.
pub open spec fn concat_pages(pages: Seq<Seq<PreliminaryMovieInformation>>) -> Seq<
    PreliminaryMovieInformation,
>
    decreases pages.len(),
{
    if pages.len() == 0 {
        Seq::empty()
    } else {
        pages[0] + concat_pages(pages.drop_first())
    }
}

/// Flattens the per-page entry lists into one, in page order.
pub fn flatten_page_entries(pages: Vec<Vec<PreliminaryMovieInformation>>) -> (r: Vec<
    PreliminaryMovieInformation,
>)
    ensures
        r@ == concat_pages(pages@.map_values(|v: Vec<PreliminaryMovieInformation>| v@)),
{
    let ghost total = pages@.map_values(|v: Vec<PreliminaryMovieInformation>| v@);
    let mut pages = pages;
    let mut out: Vec<PreliminaryMovieInformation> = Vec::new();
    proof {
        assert(out@ + concat_pages(total) =~= concat_pages(total));
        assert(pages@.map_values(|v: Vec<PreliminaryMovieInformation>| v@) =~= total);
    }
    while pages.len() > 0
        invariant
            out@ + concat_pages(pages@.map_values(|v: Vec<PreliminaryMovieInformation>| v@))
                == concat_pages(total),
        decreases pages.len(),
    {
        let ghost pviews = pages@.map_values(|v: Vec<PreliminaryMovieInformation>| v@);
        let mut page = pages.remove(0);
        proof {
            assert(pages@.map_values(|v: Vec<PreliminaryMovieInformation>| v@)
                =~= pviews.drop_first());
            assert(pviews[0] == page@);
        }
        let ghost rest = concat_pages(pviews.drop_first());
        let ghost page0 = page@;
        let ghost out0 = out@;
        while page.len() > 0
            invariant
                out@ + page@ + rest == out0 + page0 + rest,
                out0 + page0 + rest == concat_pages(total),
            decreases page.len(),
        {
            let ghost before = page@;
            let item = page.remove(0);
            out.push(item);
            proof {
                assert(page@ =~= before.drop_first());
                assert(out@ + page@ =~= (out@.drop_last() + before));
                assert(out@ + page@ + rest =~= out@.drop_last() + before + rest);
            }
        }
        proof {
            assert(page@.len() == 0);
            assert(out@ + page@ =~= out@);
            assert(out@ + rest =~= out@ + page@ + rest);
            assert(concat_pages(pviews) == pviews[0] + concat_pages(pviews.drop_first()));
        }
    }
    proof {
        assert(pages@.map_values(|v: Vec<PreliminaryMovieInformation>| v@).len() == 0);
        assert(concat_pages(pages@.map_values(|v: Vec<PreliminaryMovieInformation>| v@))
            =~= Seq::<PreliminaryMovieInformation>::empty());
        assert(out@ + Seq::<PreliminaryMovieInformation>::empty() =~= out@);
    }
    out
}

// ---------------------------------------------------------------------
// Optional cross-page deduplication
// ---------------------------------------------------------------------

/// Whether some entry carries this URL.
pub open spec fn contains_url(s: Seq<PreliminaryMovieInformation>, u: Seq<char>) -> bool {
    exists|i: int| 0 <= i < s.len() && s[i].movie_url@ == u
}

/// Keeps the first entry for each URL, in order.
pub open spec fn dedup_entries_spec(s: Seq<PreliminaryMovieInformation>) -> Seq<
    PreliminaryMovieInformation,
>
    decreases s.len(),
{
    if s.len() == 0 {
        Seq::empty()
    } else {
        let d = dedup_entries_spec(s.drop_last());
        if contains_url(d, s.last().movie_url@) {
            d
        } else {
            d.push(s.last())
        }
    }
}

/// Whether some entry of `v` carries the URL `u`.
fn entries_contain_url(v: &Vec<PreliminaryMovieInformation>, u: &str) -> (r: bool)
    ensures
        r == contains_url(v@, u@),
{
    let n = v.len();
    let mut i: usize = 0;
    while i < n
        invariant
            0 <= i <= n,
            n == v.len(),
            forall|k: int| 0 <= k < i ==> (#[trigger] v@[k]).movie_url@ != u@,
        decreases n - i,
    {
        if crate::text_util::str_eq(v[i].movie_url.as_str(), u) {
            return true;
        }
        i = i + 1;
    }
    false
}

/// Cross-page deduplication by detail URL. The site is not known to
/// repeat a movie across pages, so by default every entry is kept;
/// pass `enabled` to drop repeats, keeping each URL's first entry in
/// order.
pub fn dedup_entries(entries: Vec<PreliminaryMovieInformation>, enabled: bool) -> (r: Vec<
    PreliminaryMovieInformation,
>)
    ensures
        enabled ==> r@ == dedup_entries_spec(entries@),
        !enabled ==> r@ == entries@,
{
    if !enabled {
        return entries;
    }
    let ghost orig = entries@;
    let mut entries = entries;
    let mut out: Vec<PreliminaryMovieInformation> = Vec::new();
    let ghost mut done: int = 0;
    proof {
        assert(orig.take(0) =~= Seq::<PreliminaryMovieInformation>::empty());
    }
    while entries.len() > 0
        invariant
            0 <= done <= orig.len(),
            entries@ == orig.skip(done),
            out@ == dedup_entries_spec(orig.take(done)),
        decreases entries.len(),
    {
        let ghost before = entries@;
        let item = entries.remove(0);
        proof {
            assert(entries@ =~= before.drop_first());
            assert(before[0] == orig[done]);
            assert(entries@ =~= orig.skip(done + 1));
            assert(orig.take(done + 1).drop_last() =~= orig.take(done));
            assert(orig.take(done + 1).last() == orig[done]);
        }
        let present = entries_contain_url(&out, item.movie_url.as_str());
        if !present {
            out.push(item);
        }
        proof {
            done = done + 1;
        }
    }
    proof {
        assert(orig.skip(done).len() == 0);
        assert(orig.take(done) =~= orig);
    }
    out
}

// ---------------------------------------------------------------------
// Merging detail results with listed ratings
// ---------------------------------------------------------------------

/// A detail record completed with the rating its listing carried.
pub open spec fn merged_movie(info: PreliminaryMovieInformation, m: Movie) -> Movie {
    Movie { title: m.title, director: m.director, year: m.year, rating: info.rating }
}

/// The records that survive: one per successfully fetched and
/// extracted detail page, each completed with its listing's rating;
/// failed items are dropped.
pub open spec fn merge_spec(items: Seq<(PreliminaryMovieInformation, Result<Movie, String>)>)
    -> Seq<Movie>
    decreases items.len(),
{
    if items.len() == 0 {
        Seq::empty()
    } else {
        match items[0].1 {
            Ok(m) => seq![merged_movie(items[0].0, m)] + merge_spec(items.drop_first()),
            Err(_) => merge_spec(items.drop_first()),
        }
    }
}

/// Builds the surviving records from per-item detail results. One
/// item's failure never affects its siblings: exactly the `Ok` items
/// appear, in order, completed with their listed ratings.
pub fn build_movies_from_results(
    items: Vec<(PreliminaryMovieInformation, Result<Movie, String>)>,
) -> (r: Vec<Movie>)
    ensures
        r@ == merge_spec(items@),
{
    let ghost orig = items@;
    let mut items = items;
    let mut out: Vec<Movie> = Vec::new();
    proof {
        assert(out@ + merge_spec(orig) =~= merge_spec(orig));
    }
    while items.len() > 0
        invariant
            out@ + merge_spec(items@) == merge_spec(orig),
        decreases items.len(),
    {
        let ghost before = items@;
        let (info, detail) = items.remove(0);
        proof {
            assert(items@ =~= before.drop_first());
            assert(before[0] == (info, detail));
        }
        match detail {
            Ok(m) => {
                let ghost prev = out@;
                out.push(Movie { title: m.title, director: m.director, year: m.year,
                    rating: info.rating });
                proof {
                    assert(out@ =~= prev + seq![merged_movie(before[0].0, before[0].1->Ok_0)]);
                    assert(prev + seq![merged_movie(before[0].0, before[0].1->Ok_0)] + merge_spec(
                        items@,
                    ) =~= prev + (seq![merged_movie(before[0].0, before[0].1->Ok_0)] + merge_spec(
                        items@,
                    )));
                }
            },
            Err(_) => {},
        }
    }
    proof {
        assert(merge_spec(items@) =~= Seq::<Movie>::empty());
        assert(out@ + Seq::<Movie>::empty() =~= out@);
    }
    out
}

/// Law: merging is tolerant of partial failure and touches nothing
/// but the rating: every surviving record keeps its detail fields and
/// satisfies the record invariant whenever the detail records do.
pub proof fn lemma_merge_preserves_wf(
    items: Seq<(PreliminaryMovieInformation, Result<Movie, String>)>,
)
    requires
        forall|i: int|
            0 <= i < items.len() ==> match (#[trigger] items[i]).1 {
                Ok(m) => movie_wf(m),
                Err(_) => true,
            },
        forall|i: int|
            0 <= i < items.len() ==> match (#[trigger] items[i]).0.rating {
                Some(v) => rating_ok(v),
                None => true,
            },
    ensures
        forall|k: int| 0 <= k < merge_spec(items).len() ==> movie_wf(#[trigger] merge_spec(items)[k]),
    decreases items.len(),
{
    if items.len() > 0 {
        assert(forall|i: int|
            0 <= i < items.drop_first().len() ==> #[trigger] items.drop_first()[i] == items[i
                + 1]);
        lemma_merge_preserves_wf(items.drop_first());
        let rest = merge_spec(items.drop_first());
        match items[0].1 {
            Ok(m) => {
                assert(movie_wf(merged_movie(items[0].0, m)));
                assert(merge_spec(items) == seq![merged_movie(items[0].0, m)] + rest);
                assert forall|k: int|
                    0 <= k < merge_spec(items).len() implies movie_wf(
                    #[trigger] merge_spec(items)[k],
                ) by {
                    if k == 0 {
                        assert(merge_spec(items)[0] == merged_movie(items[0].0, m));
                    } else {
                        assert(merge_spec(items)[k] == rest[k - 1]);
                        assert(movie_wf(rest[k - 1]));
                    }
                }
            },
            Err(_) => {
                assert forall|k: int|
                    0 <= k < merge_spec(items).len() implies movie_wf(
                    #[trigger] merge_spec(items)[k],
                ) by {
                    assert(merge_spec(items)[k] == rest[k]);
                    assert(movie_wf(rest[k]));
                }
            },
        }
    }
}

// ---------------------------------------------------------------------
// The final sort by title
// ---------------------------------------------------------------------

/// Ascending by title, in lexicographic code-point order.
pub open spec fn sorted_by_title(s: Seq<Movie>) -> bool {
    forall|i: int, j: int| 0 <= i < j < s.len() ==> lex_le(#[trigger] s[i].title@, #[trigger] s[j].title@)
}

/// Inserts a record after every record whose title is not greater,
/// so records with equal titles keep their arrival order.
pub open spec fn insert_sorted(m: Movie, s: Seq<Movie>) -> Seq<Movie>
    decreases s.len(),
{
    if s.len() > 0 && lex_le(s[0].title@, m.title@) {
        seq![s[0]] + insert_sorted(m, s.drop_first())
    } else {
        seq![m] + s
    }
}

/// Insertion sort of the records by title.
pub open spec fn sort_by_title_spec(s: Seq<Movie>) -> Seq<Movie>
    decreases s.len(),
{
    if s.len() == 0 {
        Seq::empty()
    } else {
        insert_sorted(s.last(), sort_by_title_spec(s.drop_last()))
    }
}

/// Inserting at the first position whose title exceeds the new one is
/// what `insert_sorted` does.
proof fn lemma_insert_sorted_at(m: Movie, s: Seq<Movie>, j: int)
    requires
        0 <= j <= s.len(),
        forall|k: int| 0 <= k < j ==> lex_le(#[trigger] s[k].title@, m.title@),
        j == s.len() || !lex_le(s[j].title@, m.title@),
    ensures
        insert_sorted(m, s) == s.subrange(0, j) + seq![m] + s.skip(j),
    decreases j,
{
    if j == 0 {
        if s.len() > 0 && lex_le(s[0].title@, m.title@) {
            assert(false);
        }
        assert(s.subrange(0, 0) + seq![m] + s.skip(0) =~= seq![m] + s);
    } else {
        assert(lex_le(s[0].title@, m.title@));
        lemma_insert_sorted_at(m, s.drop_first(), j - 1);
        assert(s.drop_first().subrange(0, j - 1) =~= s.subrange(1, j));
        assert(s.drop_first().skip(j - 1) =~= s.skip(j));
        assert(seq![s[0]] + (s.subrange(1, j) + seq![m] + s.skip(j)) =~= s.subrange(0, j) + seq![m]
            + s.skip(j));
    }
}

/// Inserts one record into an already sorted vector, keeping it
/// sorted and matching `insert_sorted`.
fn insert_movie(r: &mut Vec<Movie>, m: Movie)
    ensures
        final(r)@ == insert_sorted(m, old(r)@),
{
    let n = r.len();
    let mut j: usize = 0;
    while j < n && str_lex_le(r[j].title.as_str(), m.title.as_str())
        invariant
            0 <= j <= n,
            n == r@.len(),
            forall|k: int| 0 <= k < j ==> lex_le(#[trigger] r@[k].title@, m.title@),
        decreases n - j,
    {
        j = j + 1;
    }
    proof {
        lemma_insert_sorted_at(m, r@, j as int);
    }
    let ghost before = r@;
    r.insert(j, m);
    proof {
        assert(r@ =~= before.subrange(0, j as int) + seq![m] + before.skip(j as int));
    }
}

/// Sorts the records by title, ascending; the result is exactly the
/// insertion sort of the input, so repeated runs over the same input
/// give byte-identical output.
pub fn sort_movies_by_title(movies: Vec<Movie>) -> (r: Vec<Movie>)
    ensures
        r@ == sort_by_title_spec(movies@),
{
    let ghost orig = movies@;
    let mut movies = movies;
    let mut out: Vec<Movie> = Vec::new();
    let ghost mut done: int = 0;
    proof {
        assert(orig.take(0) =~= Seq::<Movie>::empty());
    }
    while movies.len() > 0
        invariant
            0 <= done <= orig.len(),
            movies@ == orig.skip(done),
            out@ == sort_by_title_spec(orig.take(done)),
        decreases movies.len(),
    {
        let ghost before = movies@;
        let m = movies.remove(0);
        proof {
            assert(movies@ =~= before.drop_first());
            assert(before[0] == orig[done]);
            assert(movies@ =~= orig.skip(done + 1));
            assert(orig.take(done + 1).drop_last() =~= orig.take(done));
            assert(orig.take(done + 1).last() == orig[done]);
        }
        insert_movie(&mut out, m);
        proof {
            done = done + 1;
        }
    }
    proof {
        assert(orig.skip(done).len() == 0);
        assert(orig.take(done) =~= orig);
    }
    out
}

// ---------------------------------------------------------------------
// Laws of the sort
// ---------------------------------------------------------------------

/// Prepending one record inserts it into the bag of records.
proof fn lemma_prepend_multiset(x: Movie, s: Seq<Movie>)
    ensures
        (seq![x] + s).to_multiset() =~= s.to_multiset().insert(x),
    decreases s.len(),
{
    broadcast use vstd::seq_lib::group_to_multiset_ensures;
    broadcast use vstd::multiset::group_multiset_axioms;

    if s.len() == 0 {
        assert(seq![x] + s =~= Seq::<Movie>::empty().push(x));
        assert(Seq::<Movie>::empty().push(x).to_multiset() =~= Seq::<Movie>::empty().to_multiset().insert(x));
    } else {
        lemma_prepend_multiset(x, s.drop_last());
        assert(seq![x] + s =~= (seq![x] + s.drop_last()).push(s.last()));
        assert(s =~= s.drop_last().push(s.last()));
        assert((seq![x] + s.drop_last()).push(s.last()).to_multiset() =~= (seq![x]
            + s.drop_last()).to_multiset().insert(s.last()));
        assert(s.drop_last().push(s.last()).to_multiset() =~= s.drop_last().to_multiset().insert(
            s.last(),
        ));
        assert(s.drop_last().to_multiset().insert(x).insert(s.last())
            =~= s.drop_last().to_multiset().insert(s.last()).insert(x));
    }
}

/// Every record of the inserted sequence is the new one or one of the
/// old ones.
proof fn lemma_insert_sorted_elems(m: Movie, s: Seq<Movie>, k: int)
    requires
        0 <= k < insert_sorted(m, s).len(),
    ensures
        insert_sorted(m, s)[k] == m || s.contains(insert_sorted(m, s)[k]),
    decreases s.len(),
{
    if s.len() > 0 && lex_le(s[0].title@, m.title@) {
        if k == 0 {
            assert(s.contains(s[0]));
        } else {
            lemma_insert_sorted_elems(m, s.drop_first(), k - 1);
            let v = insert_sorted(m, s.drop_first())[k - 1];
            assert(insert_sorted(m, s)[k] == v);
            if v != m {
                let i = choose|i: int| 0 <= i < s.drop_first().len() && s.drop_first()[i] == v;
                assert(s[i + 1] == v);
            }
        }
    } else {
        if k > 0 {
            assert(insert_sorted(m, s)[k] == s[k - 1]);
        }
    }
}

/// Inserting into a sorted sequence keeps it sorted.
proof fn lemma_insert_sorted_sorted(m: Movie, s: Seq<Movie>)
    requires
        sorted_by_title(s),
    ensures
        sorted_by_title(insert_sorted(m, s)),
    decreases s.len(),
{
    if s.len() > 0 && lex_le(s[0].title@, m.title@) {
        assert(sorted_by_title(s.drop_first())) by {
            assert(forall|i: int, j: int|
                0 <= i < j < s.drop_first().len() ==> lex_le(
                    #[trigger] s.drop_first()[i].title@,
                    #[trigger] s.drop_first()[j].title@,
                ));
        }
        lemma_insert_sorted_sorted(m, s.drop_first());
        let inner = insert_sorted(m, s.drop_first());
        let out = insert_sorted(m, s);
        assert(out == seq![s[0]] + inner);
        assert forall|i: int, j: int| 0 <= i < j < out.len() implies lex_le(
            #[trigger] out[i].title@,
            #[trigger] out[j].title@,
        ) by {
            if i == 0 {
                lemma_insert_sorted_elems(m, s.drop_first(), j - 1);
                let v = inner[j - 1];
                assert(out[j] == v);
                if v == m {
                    assert(lex_le(s[0].title@, m.title@));
                } else {
                    let t = choose|t: int|
                        0 <= t < s.drop_first().len() && s.drop_first()[t] == v;
                    assert(s[t + 1] == v);
                    assert(lex_le(s[0].title@, s[t + 1].title@));
                }
            } else {
                assert(out[i] == inner[i - 1] && out[j] == inner[j - 1]);
                assert(lex_le(inner[i - 1].title@, inner[j - 1].title@));
            }
        }
    } else {
        let out = insert_sorted(m, s);
        assert(out == seq![m] + s);
        assert forall|i: int, j: int| 0 <= i < j < out.len() implies lex_le(
            #[trigger] out[i].title@,
            #[trigger] out[j].title@,
        ) by {
            if i == 0 {
                if s.len() > 0 {
                    lemma_lex_le_total(s[0].title@, m.title@);
                    assert(lex_le(m.title@, s[0].title@));
                    if j > 1 {
                        assert(lex_le(s[0].title@, s[j - 1].title@));
                        lemma_lex_le_trans(m.title@, s[0].title@, s[j - 1].title@);
                    }
                    assert(out[j] == s[j - 1]);
                }
            } else {
                assert(out[i] == s[i - 1] && out[j] == s[j - 1]);
            }
        }
    }
}

/// Law: the sort leaves the records sorted ascending by title.
pub proof fn lemma_sort_spec_sorted(s: Seq<Movie>)
    ensures
        sorted_by_title(sort_by_title_spec(s)),
    decreases s.len(),
{
    if s.len() > 0 {
        lemma_sort_spec_sorted(s.drop_last());
        lemma_insert_sorted_sorted(s.last(), sort_by_title_spec(s.drop_last()));
    }
}

/// Inserting adds exactly one record to the bag.
proof fn lemma_insert_sorted_multiset(m: Movie, s: Seq<Movie>)
    ensures
        insert_sorted(m, s).to_multiset() =~= s.to_multiset().insert(m),
    decreases s.len(),
{
    broadcast use vstd::seq_lib::group_to_multiset_ensures;
    broadcast use vstd::multiset::group_multiset_axioms;

    if s.len() > 0 && lex_le(s[0].title@, m.title@) {
        lemma_insert_sorted_multiset(m, s.drop_first());
        lemma_prepend_multiset(s[0], insert_sorted(m, s.drop_first()));
        lemma_prepend_multiset(s[0], s.drop_first());
        assert(seq![s[0]] + s.drop_first() =~= s);
        assert(insert_sorted(m, s).to_multiset() =~= s.drop_first().to_multiset().insert(
            m,
        ).insert(s[0]));
        assert(s.to_multiset() =~= s.drop_first().to_multiset().insert(s[0]));
        assert(s.drop_first().to_multiset().insert(m).insert(s[0])
            =~= s.drop_first().to_multiset().insert(s[0]).insert(m));
    } else {
        lemma_prepend_multiset(m, s);
    }
}

/// Law: the sort is a permutation — no record appears or disappears.
pub proof fn lemma_sort_spec_multiset(s: Seq<Movie>)
    ensures
        sort_by_title_spec(s).to_multiset() =~= s.to_multiset(),
    decreases s.len(),
{
    broadcast use vstd::seq_lib::group_to_multiset_ensures;

    if s.len() > 0 {
        lemma_sort_spec_multiset(s.drop_last());
        lemma_insert_sorted_multiset(s.last(), sort_by_title_spec(s.drop_last()));
        assert(s.drop_last().push(s.last()).to_multiset() =~= s.drop_last().to_multiset().insert(
            s.last(),
        ));
        assert(s.drop_last().push(s.last()) =~= s);
    }
}

/// A record not below all the others goes to the end.
proof fn lemma_insert_sorted_end(m: Movie, s: Seq<Movie>)
    requires
        forall|k: int| 0 <= k < s.len() ==> lex_le(#[trigger] s[k].title@, m.title@),
    ensures
        insert_sorted(m, s) == s + seq![m],
{
    lemma_insert_sorted_at(m, s, s.len() as int);
    assert(s.subrange(0, s.len() as int) + seq![m] + s.skip(s.len() as int) =~= s + seq![m]);
}

/// Law: sorting an already sorted sequence changes nothing, so a
/// second pass over unchanged output repeats it exactly.
pub proof fn lemma_sort_idempotent(s: Seq<Movie>)
    requires
        sorted_by_title(s),
    ensures
        sort_by_title_spec(s) == s,
    decreases s.len(),
{
    if s.len() > 0 {
        assert(sorted_by_title(s.drop_last())) by {
            assert(forall|i: int, j: int|
                0 <= i < j < s.drop_last().len() ==> lex_le(
                    #[trigger] s.drop_last()[i].title@,
                    #[trigger] s.drop_last()[j].title@,
                ));
        }
        lemma_sort_idempotent(s.drop_last());
        assert(forall|k: int|
            0 <= k < s.drop_last().len() ==> lex_le(
                (#[trigger] s.drop_last()[k]).title@,
                s.last().title@,
            ));
        lemma_insert_sorted_end(s.last(), s.drop_last());
        assert(s.drop_last() + seq![s.last()] =~= s);
    }
}

/// Law: the pipeline is a function of the fetched documents alone —
/// two runs over the same listing entries and detail results produce
/// the same ordered records, field for field.
pub proof fn lemma_pipeline_repeatable(
    first: Seq<(PreliminaryMovieInformation, Result<Movie, String>)>,
    second: Seq<(PreliminaryMovieInformation, Result<Movie, String>)>,
)
    requires
        first == second,
    ensures
        sort_by_title_spec(merge_spec(first)) == sort_by_title_spec(merge_spec(second)),
{
}

} // verus!
