//! Markup extraction: pure functions from one HTML document to
//! structured data — the fields of a detail page, the preliminary
//! entries of a listing page, and the last page number a listing
//! advertises.

use vstd::prelude::*;
use crate::urls::base_url_spec;
use crate::html::{
    attr_of, elem_has_class, get_attr, has_attr, has_class, html_elements, is_named,
    parse_html_elements, views_of_elems, ElemModel, HtmlElement,
};
use crate::movie::{movie_wf, rating_ok, rating_tenths_of, Movie, PreliminaryMovieInformation, Rating};
use crate::text_util::{
    all_digit_chars, digits_value, segment_after_first, segment_after_first_spec,
    split_words, trim_spec, trim_str, words_of,
};

verus! {

#[derive(Debug)]
pub struct MovieExtractor {}

// ---------------------------------------------------------------------
// Detail pages: title, director, year
// ---------------------------------------------------------------------

/// The heading that carries a detail page's original title.
pub open spec fn is_title_elem(e: ElemModel) -> bool {
    e.name == "h2"@ && attr_of(e.attrs, "class"@) == Some("movie-original-title"@)
}

/// The inline element that carries the director's name.
pub open spec fn is_director_elem(e: ElemModel) -> bool {
    e.name == "span"@ && attr_of(e.attrs, "itemprop"@) == Some("director"@)
}

/// The small print that carries the release year.
pub open spec fn is_year_elem(e: ElemModel) -> bool {
    e.name == "small"@ && attr_of(e.attrs, "class"@) == Some("release"@)
}

/// Text of the first title element, if any.
pub open spec fn title_text_of(doc: Seq<ElemModel>) -> Option<Seq<char>>
    decreases doc.len(),
{
    if doc.len() == 0 {
        None
    } else if is_title_elem(doc[0]) {
        Some(doc[0].text)
    } else {
        title_text_of(doc.drop_first())
    }
}

/// Trimmed text of the first director element, if any.
pub open spec fn director_text_of(doc: Seq<ElemModel>) -> Option<Seq<char>>
    decreases doc.len(),
{
    if doc.len() == 0 {
        None
    } else if is_director_elem(doc[0]) {
        Some(trim_spec(doc[0].text))
    } else {
        director_text_of(doc.drop_first())
    }
}

/// Text of the first year element, if any.
pub open spec fn year_text_of(doc: Seq<ElemModel>) -> Option<Seq<char>>
    decreases doc.len(),
{
    if doc.len() == 0 {
        None
    } else if is_year_elem(doc[0]) {
        Some(doc[0].text)
    } else {
        year_text_of(doc.drop_first())
    }
}

/// The release year, when the year element's text is a plain decimal
/// number in range.
pub open spec fn year_of(doc: Seq<ElemModel>) -> Option<u32> {
    match year_text_of(doc) {
        None => None,
        Some(t) => if t.len() > 0 && all_digit_chars(t) && digits_value(t) <= u32::MAX {
            Some(digits_value(t) as u32)
        } else {
            None
        },
    }
}

/// A title is usable when present and non-empty.
pub open spec fn title_ok(doc: Seq<ElemModel>) -> bool {
    match title_text_of(doc) {
        Some(t) => t.len() > 0,
        None => false,
    }
}

/// A director is usable when present and non-empty after trimming.
pub open spec fn director_ok(doc: Seq<ElemModel>) -> bool {
    match director_text_of(doc) {
        Some(t) => t.len() > 0,
        None => false,
    }
}

/// A year is usable when it parses and is positive.
pub open spec fn year_ok(doc: Seq<ElemModel>) -> bool {
    match year_of(doc) {
        Some(y) => y >= 1,
        None => false,
    }
}

pub open spec fn title_err_msg(url: Seq<char>) -> Seq<char> {
    "Could not extract title from page: "@ + url
}

pub open spec fn director_err_msg(url: Seq<char>) -> Seq<char> {
    "Could not extract director from page: "@ + url
}

pub open spec fn year_err_msg(url: Seq<char>) -> Seq<char> {
    "Could not extract year from page: "@ + url
}

/// Checks that the element's attribute `key` is present with exactly
/// the value `val`.
fn attr_equals(e: &HtmlElement, key: &str, val: &str) -> (r: bool)
    ensures
        r == (attr_of(e@.attrs, key@) == Some(val@)),
{
    match get_attr(e, key) {
        None => false,
        Some(v) => crate::text_util::str_eq(v.as_str(), val),
    }
}

impl MovieExtractor {
    /// Extracts the movie of one detail page. Fails naming the first
    /// unusable field, in the order title, director, year, and the
    /// page's URL; on success the record satisfies its invariant and
    /// carries no rating yet.
    pub fn extract_movie_from_html(html_body: &str, url: &str) -> (r: Result<Movie, String>)
        ensures
            ({
                let doc = html_elements(html_body@);
                match r {
                    Ok(m) => title_ok(doc) && director_ok(doc) && year_ok(doc) && Some(m.title@)
                        == title_text_of(doc) && Some(m.director@) == director_text_of(doc) && Some(
                        m.year,
                    ) == year_of(doc) && m.rating is None && movie_wf(m),
                    Err(e) => (!title_ok(doc) && e@ == title_err_msg(url@)) || (title_ok(doc)
                        && !director_ok(doc) && e@ == director_err_msg(url@)) || (title_ok(doc)
                        && director_ok(doc) && !year_ok(doc) && e@ == year_err_msg(url@)),
                }
            }),
    {
        let title = Self::extract_title(html_body);
        let director = Self::extract_director(html_body);
        let year = Self::extract_year(html_body);

        let title = match title {
            Some(t) => if t.unicode_len() > 0 {
                t
            } else {
                return Err(String::from_str("Could not extract title from page: ").concat(url));
            },
            None => {
                return Err(String::from_str("Could not extract title from page: ").concat(url));
            },
        };
        let director = match director {
            Some(d) => if d.unicode_len() > 0 {
                d
            } else {
                return Err(
                    String::from_str("Could not extract director from page: ").concat(url),
                );
            },
            None => {
                return Err(String::from_str("Could not extract director from page: ").concat(url));
            },
        };
        let year = match year {
            Some(y) => if y >= 1 {
                y
            } else {
                return Err(String::from_str("Could not extract year from page: ").concat(url));
            },
            None => {
                return Err(String::from_str("Could not extract year from page: ").concat(url));
            },
        };
        Ok(Movie { title, director, year, rating: None })
    }

    /// Text of the heading styled as the original title, if one exists.
    fn extract_title(resp: &str) -> (r: Option<String>)
        ensures
            match r {
                Some(t) => title_text_of(html_elements(resp@)) == Some(t@),
                None => title_text_of(html_elements(resp@)) is None,
            },
    {
        let elems = parse_html_elements(resp);
        let ghost doc = html_elements(resp@);
        let n = elems.len();
        let mut i: usize = 0;
        assert(doc.skip(0) =~= doc);
        while i < n
            invariant
                0 <= i <= n,
                n == elems.len(),
                views_of_elems(elems@) == doc,
                doc == html_elements(resp@),
                doc.len() == n,
                title_text_of(doc) == title_text_of(doc.skip(i as int)),
            decreases n - i,
        {
            proof {
                assert(doc[i as int] == elems@[i as int]@);
                assert(doc.skip(i as int)[0] == doc[i as int]);
                assert(doc.skip(i as int).drop_first() =~= doc.skip(i + 1));
            }
            if is_named(&elems[i], "h2") && attr_equals(&elems[i], "class", "movie-original-title")
            {
                assert(is_title_elem(doc[i as int]));
                return Some(elems[i].text.clone());
            }
            assert(!is_title_elem(doc[i as int]));
            i = i + 1;
        }
        assert(doc.skip(n as int).len() == 0);
        None
    }

    /// Trimmed text of the element marked as the director, if one
    /// exists.
    fn extract_director(resp: &str) -> (r: Option<String>)
        ensures
            match r {
                Some(t) => director_text_of(html_elements(resp@)) == Some(t@),
                None => director_text_of(html_elements(resp@)) is None,
            },
    {
        let elems = parse_html_elements(resp);
        let ghost doc = html_elements(resp@);
        let n = elems.len();
        let mut i: usize = 0;
        assert(doc.skip(0) =~= doc);
        while i < n
            invariant
                0 <= i <= n,
                n == elems.len(),
                views_of_elems(elems@) == doc,
                doc == html_elements(resp@),
                doc.len() == n,
                director_text_of(doc) == director_text_of(doc.skip(i as int)),
            decreases n - i,
        {
            proof {
                assert(doc[i as int] == elems@[i as int]@);
                assert(doc.skip(i as int)[0] == doc[i as int]);
                assert(doc.skip(i as int).drop_first() =~= doc.skip(i + 1));
            }
            if is_named(&elems[i], "span") && attr_equals(&elems[i], "itemprop", "director") {
                assert(is_director_elem(doc[i as int]));
                return Some(trim_str(elems[i].text.as_str()));
            }
            assert(!is_director_elem(doc[i as int]));
            i = i + 1;
        }
        assert(doc.skip(n as int).len() == 0);
        None
    }

    /// The number in the small print styled as the release year, if it
    /// parses.
    fn extract_year(resp: &str) -> (r: Option<u32>)
        ensures
            match r {
                Some(y) => year_of(html_elements(resp@)) == Some(y),
                None => year_of(html_elements(resp@)) is None,
            },
    {
        let elems = parse_html_elements(resp);
        let ghost doc = html_elements(resp@);
        let n = elems.len();
        let mut i: usize = 0;
        assert(doc.skip(0) =~= doc);
        while i < n
            invariant
                0 <= i <= n,
                n == elems.len(),
                views_of_elems(elems@) == doc,
                doc == html_elements(resp@),
                doc.len() == n,
                year_text_of(doc) == year_text_of(doc.skip(i as int)),
            decreases n - i,
        {
            proof {
                assert(doc[i as int] == elems@[i as int]@);
                assert(doc.skip(i as int)[0] == doc[i as int]);
                assert(doc.skip(i as int).drop_first() =~= doc.skip(i + 1));
            }
            if is_named(&elems[i], "small") && attr_equals(&elems[i], "class", "release") {
                assert(is_year_elem(doc[i as int]));
                return crate::text_util::parse_u32_digits(elems[i].text.as_str());
            }
            assert(!is_year_elem(doc[i as int]));
            i = i + 1;
        }
        assert(doc.skip(n as int).len() == 0);
        None
    }
}

// ---------------------------------------------------------------------
// Watchlist listing pages
// ---------------------------------------------------------------------

/// The value under `Some`, or the empty sequence.
pub open spec fn some_or_empty(o: Option<Seq<char>>) -> Seq<char> {
    match o {
        Some(v) => v,
        None => Seq::empty(),
    }
}

/// An anchor that identifies a movie in a listing: it carries the
/// movie-identifier attribute and a link.
pub open spec fn is_movie_anchor(e: ElemModel) -> bool {
    e.name == "a"@ && attr_of(e.attrs, "data-movie-pk"@) is Some && attr_of(e.attrs, "href"@)
        is Some
}

/// The absolute detail URLs of a watchlist listing, in document order,
/// duplicates included.
pub open spec fn watchlist_urls_of(doc: Seq<ElemModel>) -> Seq<Seq<char>>
    decreases doc.len(),
{
    if doc.len() == 0 {
        Seq::empty()
    } else if is_movie_anchor(doc[0]) {
        seq![base_url_spec() + some_or_empty(attr_of(doc[0].attrs, "href"@))] + watchlist_urls_of(
            doc.drop_first(),
        )
    } else {
        watchlist_urls_of(doc.drop_first())
    }
}

/// Keeps the first occurrence of each value, in order.
pub open spec fn dedup_first(s: Seq<Seq<char>>) -> Seq<Seq<char>>
    decreases s.len(),
{
    if s.len() == 0 {
        Seq::empty()
    } else {
        let d = dedup_first(s.drop_last());
        if d.contains(s.last()) {
            d
        } else {
            d.push(s.last())
        }
    }
}

/// No two entries are equal.
pub open spec fn distinct_seqs(s: Seq<Seq<char>>) -> bool {
    forall|i: int, j: int| 0 <= i < j < s.len() ==> s[i] != s[j]
}

/// Law: deduplication leaves no duplicate URLs, so a listing that
/// links each movie twice yields one entry per movie.
pub proof fn lemma_dedup_first_distinct(s: Seq<Seq<char>>)
    ensures
        distinct_seqs(dedup_first(s)),
    decreases s.len(),
{
    if s.len() > 0 {
        lemma_dedup_first_distinct(s.drop_last());
        let d = dedup_first(s.drop_last());
        if !d.contains(s.last()) {
            assert forall|i: int, j: int|
                0 <= i < j < d.push(s.last()).len() implies d.push(s.last())[i] != d.push(
                s.last(),
            )[j] by {
                if j < d.len() {
                    assert(d[i] != d[j]);
                } else {
                    assert(d.push(s.last())[j] == s.last());
                    assert(!d.contains(s.last()));
                    assert(d.push(s.last())[i] == d[i]);
                }
            }
        }
    }
}

/// Law: deduplication keeps exactly the values that occur.
pub proof fn lemma_dedup_first_same_values(s: Seq<Seq<char>>, x: Seq<char>)
    ensures
        dedup_first(s).contains(x) == s.contains(x),
    decreases s.len(),
{
    if s.len() > 0 {
        lemma_dedup_first_same_values(s.drop_last(), x);
        let d = dedup_first(s.drop_last());
        if s.contains(x) {
            let i = choose|i: int| 0 <= i < s.len() && s[i] == x;
            if i < s.len() - 1 {
                assert(s.drop_last()[i] == x);
                assert(s.drop_last().contains(x));
                if !d.contains(s.last()) {
                    assert(d.push(s.last()).contains(x)) by {
                        let k = choose|k: int| 0 <= k < d.len() && d[k] == x;
                        assert(d.push(s.last())[k] == x);
                    }
                }
            } else {
                if !d.contains(s.last()) {
                    assert(d.push(s.last())[d.len() as int] == s.last());
                }
            }
        } else {
            assert(!s.drop_last().contains(x)) by {
                if s.drop_last().contains(x) {
                    let k = choose|k: int| 0 <= k < s.len() - 1 && s.drop_last()[k] == x;
                    assert(s[k] == x);
                }
            }
            assert(s.last() != x) by {
                if s.last() == x {
                    assert(s[s.len() - 1] == x);
                }
            }
            if !d.contains(s.last()) {
                assert(!d.push(s.last()).contains(x)) by {
                    if d.push(s.last()).contains(x) {
                        let k = choose|k: int|
                            0 <= k < d.len() + 1 && d.push(s.last())[k] == x;
                        if k < d.len() {
                            assert(d[k] == x);
                        }
                    }
                }
            }
        }
    }
}

/// Law: a watchlist listing yields at most one entry per detail URL,
/// however many anchors point to it (the page links each movie from
/// both its poster and its title).
pub proof fn lemma_watchlist_entries_distinct(doc: Seq<ElemModel>)
    ensures
        distinct_seqs(dedup_first(watchlist_urls_of(doc))),
{
    lemma_dedup_first_distinct(watchlist_urls_of(doc));
}

/// Whether some entry of `v` reads `s`.
fn vec_contains_str(v: &Vec<String>, s: &str) -> (r: bool)
    ensures
        r == v@.map_values(|x: String| x@).contains(s@),
{
    let n = v.len();
    let ghost views = v@.map_values(|x: String| x@);
    let mut i: usize = 0;
    while i < n
        invariant
            0 <= i <= n,
            n == v.len(),
            views == v@.map_values(|x: String| x@),
            forall|k: int| 0 <= k < i ==> views[k] != s@,
        decreases n - i,
    {
        if crate::text_util::str_eq(v[i].as_str(), s) {
            assert(views.contains(s@)) by {
                assert(views[i as int] == s@);
            }
            return true;
        }
        i = i + 1;
    }
    assert(!views.contains(s@));
    false
}

impl MovieExtractor {
    /// The preliminary entries of one watchlist listing page: each
    /// movie anchor's link made absolute, duplicates removed (the page
    /// links every movie twice, from its poster and from its title),
    /// first occurrences kept in order, and no rating.
    pub fn get_preliminary_info_for_watchlist(watchlist_page_html: &str) -> (r: Vec<
        PreliminaryMovieInformation,
    >)
        ensures
            ({
                let urls = dedup_first(watchlist_urls_of(html_elements(watchlist_page_html@)));
                r@.len() == urls.len() && (forall|k: int|
                    0 <= k < r@.len() ==> (#[trigger] r@[k]).movie_url@ == urls[k] && r@[k].rating
                        is None)
            }),
    {
        let elems = parse_html_elements(watchlist_page_html);
        let ghost doc = html_elements(watchlist_page_html@);
        let n = elems.len();

        // Collect the absolute URLs of all movie anchors, in order.
        let mut urls: Vec<String> = Vec::new();
        let mut i: usize = 0;
        proof {
            assert(doc.skip(0) =~= doc);
            assert(urls@.map_values(|x: String| x@) + watchlist_urls_of(doc) =~= watchlist_urls_of(
                doc,
            ));
        }
        while i < n
            invariant
                0 <= i <= n,
                n == elems.len(),
                views_of_elems(elems@) == doc,
                doc == html_elements(watchlist_page_html@),
                doc.len() == n,
                urls@.map_values(|x: String| x@) + watchlist_urls_of(doc.skip(i as int))
                    == watchlist_urls_of(doc),
            decreases n - i,
        {
            proof {
                assert(doc[i as int] == elems@[i as int]@);
                assert(doc.skip(i as int)[0] == doc[i as int]);
                assert(doc.skip(i as int).drop_first() =~= doc.skip(i + 1));
            }
            let is_anchor = is_named(&elems[i], "a") && has_attr(&elems[i], "data-movie-pk");
            if is_anchor {
                match get_attr(&elems[i], "href") {
                    Some(href) => {
                        assert(is_movie_anchor(doc[i as int]));
                        let u = crate::urls::get_base_url().concat(href.as_str());
                        let ghost prev = urls@.map_values(|x: String| x@);
                        urls.push(u);
                        proof {
                            assert(urls@.map_values(|x: String| x@) =~= prev + seq![base_url_spec()
                                + some_or_empty(attr_of(doc[i as int].attrs, "href"@))]);
                            assert(prev + seq![base_url_spec() + some_or_empty(
                                attr_of(doc[i as int].attrs, "href"@),
                            )] + watchlist_urls_of(doc.skip(i + 1)) =~= prev + (seq![base_url_spec()
                                + some_or_empty(attr_of(doc[i as int].attrs, "href"@))]
                                + watchlist_urls_of(doc.skip(i + 1))));
                        }
                    },
                    None => {
                        assert(!is_movie_anchor(doc[i as int]));
                    },
                }
            } else {
                assert(!is_movie_anchor(doc[i as int]));
            }
            i = i + 1;
        }
        assert(doc.skip(n as int).len() == 0);
        let ghost all_urls = watchlist_urls_of(doc);
        proof {
            assert(urls@.map_values(|x: String| x@) + Seq::<Seq<char>>::empty() =~= urls@.map_values(
                |x: String| x@,
            ));
        }

        // Keep the first occurrence of each URL.
        let m = urls.len();
        let mut uniq: Vec<String> = Vec::new();
        let mut j: usize = 0;
        proof {
            assert(all_urls.take(0) =~= Seq::<Seq<char>>::empty());
        }
        while j < m
            invariant
                0 <= j <= m,
                m == urls.len(),
                urls@.map_values(|x: String| x@) == all_urls,
                uniq@.map_values(|x: String| x@) == dedup_first(all_urls.take(j as int)),
            decreases m - j,
        {
            proof {
                assert(all_urls.take(j + 1).drop_last() =~= all_urls.take(j as int));
                assert(all_urls.take(j + 1).last() == all_urls[j as int]);
            }
            let present = vec_contains_str(&uniq, urls[j].as_str());
            if !present {
                let ghost prev = uniq@.map_values(|x: String| x@);
                uniq.push(urls[j].clone());
                proof {
                    assert(uniq@.map_values(|x: String| x@) =~= prev.push(all_urls[j as int]));
                }
            }
            j = j + 1;
        }
        assert(all_urls.take(m as int) =~= all_urls);

        // Wrap each URL as a preliminary entry without a rating.
        let k = uniq.len();
        let mut out: Vec<PreliminaryMovieInformation> = Vec::new();
        let mut t: usize = 0;
        while t < k
            invariant
                0 <= t <= k,
                k == uniq.len(),
                uniq@.map_values(|x: String| x@) == dedup_first(all_urls),
                out@.len() == t,
                forall|x: int|
                    0 <= x < t ==> (#[trigger] out@[x]).movie_url@ == dedup_first(all_urls)[x]
                        && out@[x].rating is None,
            decreases k - t,
        {
            out.push(
                PreliminaryMovieInformation { movie_url: uniq[t].clone(), rating: None },
            );
            t = t + 1;
        }
        out
    }
}

// ---------------------------------------------------------------------
// Watched-list listing pages
// ---------------------------------------------------------------------

/// A list item that carries one watched movie: an `li` with the
/// movie-list class word and the movie-identifier attribute.
pub open spec fn is_watched_item(e: ElemModel) -> bool {
    e.name == "li"@ && has_class(e, "movie_list_item"@) && attr_of(e.attrs, "data-movie-pk"@)
        is Some
}

/// The serialized markup of each watched-movie item, in order.
pub open spec fn watched_fragments_of(doc: Seq<ElemModel>) -> Seq<Seq<char>>
    decreases doc.len(),
{
    if doc.len() == 0 {
        Seq::empty()
    } else if is_watched_item(doc[0]) {
        seq![doc[0].html] + watched_fragments_of(doc.drop_first())
    } else {
        watched_fragments_of(doc.drop_first())
    }
}

/// The absolute detail URL of one fragment: the first anchor's link,
/// made absolute; `None` when there is no anchor or it has no link.
pub open spec fn frag_url_of(doc: Seq<ElemModel>) -> Option<Seq<char>>
    decreases doc.len(),
{
    if doc.len() == 0 {
        None
    } else if doc[0].name == "a"@ {
        match attr_of(doc[0].attrs, "href"@) {
            Some(h) => Some(base_url_spec() + h),
            None => None,
        }
    } else {
        frag_url_of(doc.drop_first())
    }
}

/// A styled star-rating span.
pub open spec fn is_stars_span(e: ElemModel) -> bool {
    e.name == "span"@ && has_class(e, "stars"@)
}

/// The rating one span's tooltip denotes: the second white-space
/// separated token of its `title` attribute, read as a rating.
pub open spec fn span_rating_of(e: ElemModel) -> Option<u32> {
    match attr_of(e.attrs, "title"@) {
        None => None,
        Some(t) => {
            let ws = words_of(t, true);
            if ws.len() >= 2 {
                rating_tenths_of(ws[1])
            } else {
                None
            }
        },
    }
}

/// The first readable rating among the fragment's star spans.
pub open spec fn stars_rating_of(doc: Seq<ElemModel>) -> Option<u32>
    decreases doc.len(),
{
    if doc.len() == 0 {
        None
    } else if is_stars_span(doc[0]) && span_rating_of(doc[0]) is Some {
        span_rating_of(doc[0])
    } else {
        stars_rating_of(doc.drop_first())
    }
}

/// What one fragment contributes: its URL and optional rating, or
/// nothing when it has no usable link.
pub open spec fn watched_info_of(doc: Seq<ElemModel>) -> Option<(Seq<char>, Option<u32>)> {
    match frag_url_of(doc) {
        None => None,
        Some(u) => Some((u, stars_rating_of(doc))),
    }
}

/// The entries a sequence of fragments contributes, in order;
/// fragments without a usable link are dropped silently.
pub open spec fn entries_from_frags(frags: Seq<Seq<char>>) -> Seq<(Seq<char>, Option<u32>)>
    decreases frags.len(),
{
    if frags.len() == 0 {
        Seq::empty()
    } else {
        match watched_info_of(html_elements(frags[0])) {
            Some(p) => seq![p] + entries_from_frags(frags.drop_first()),
            None => entries_from_frags(frags.drop_first()),
        }
    }
}

/// All entries of one watched-list listing page.
pub open spec fn watched_entries_of(html: Seq<char>) -> Seq<(Seq<char>, Option<u32>)> {
    entries_from_frags(watched_fragments_of(html_elements(html)))
}

/// An optional rating as its tenths value.
pub open spec fn rating_view(r: Option<Rating>) -> Option<u32> {
    match r {
        Some(x) => Some(x.tenths),
        None => None,
    }
}

/// A preliminary entry as plain values.
pub open spec fn prelim_view(p: PreliminaryMovieInformation) -> (Seq<char>, Option<u32>) {
    (p.movie_url@, rating_view(p.rating))
}

/// Reads the rating of one star span, if its tooltip has one.
fn span_rating(e: &HtmlElement) -> (r: Option<Rating>)
    ensures
        match r {
            Some(v) => span_rating_of(e@) == Some(v.tenths) && rating_ok(v),
            None => span_rating_of(e@) is None,
        },
{
    match get_attr(e, "title") {
        None => None,
        Some(t) => {
            let ws = split_words(t.as_str(), true);
            if ws.len() >= 2 {
                assert(ws@.map_values(|w: String| w@)[1] == ws@[1]@);
                Rating::parse(ws[1].as_str())
            } else {
                None
            }
        },
    }
}

impl MovieExtractor {
    /// The preliminary entries of one watched-list listing page: one
    /// entry per movie item with a usable link, carrying the listed
    /// rating when its tooltip has a readable one.
    pub fn get_preliminary_info_for_watched_movies(watched_page_html: &str) -> (r: Vec<
        PreliminaryMovieInformation,
    >)
        ensures
            r@.map_values(|p: PreliminaryMovieInformation| prelim_view(p)) == watched_entries_of(
                watched_page_html@,
            ),
            forall|k: int|
                0 <= k < r@.len() ==> match (#[trigger] r@[k]).rating {
                    Some(v) => rating_ok(v),
                    None => true,
                },
    {
        let frags = match Self::break_watched_movies_html_per_movie(watched_page_html) {
            Ok(v) => v,
            Err(_) => {
                // Never taken: splitting a page into fragments cannot fail.
                Vec::new()
            },
        };
        let ghost fviews = frags@.map_values(|s: String| s@);
        let n = frags.len();
        let mut out: Vec<PreliminaryMovieInformation> = Vec::new();
        let mut i: usize = 0;
        proof {
            assert(fviews.skip(0) =~= fviews);
            assert(out@.map_values(|p: PreliminaryMovieInformation| prelim_view(p))
                + entries_from_frags(fviews) =~= entries_from_frags(fviews));
        }
        while i < n
            invariant
                0 <= i <= n,
                n == frags.len(),
                fviews == frags@.map_values(|s: String| s@),
                fviews == watched_fragments_of(html_elements(watched_page_html@)),
                out@.map_values(|p: PreliminaryMovieInformation| prelim_view(p))
                    + entries_from_frags(fviews.skip(i as int)) == entries_from_frags(fviews),
                forall|k: int|
                    0 <= k < out@.len() ==> match (#[trigger] out@[k]).rating {
                        Some(v) => rating_ok(v),
                        None => true,
                    },
            decreases n - i,
        {
            proof {
                assert(fviews.skip(i as int)[0] == fviews[i as int]);
                assert(fviews[i as int] == frags@[i as int]@);
                assert(fviews.skip(i as int).drop_first() =~= fviews.skip(i + 1));
            }
            let ghost prev = out@.map_values(|p: PreliminaryMovieInformation| prelim_view(p));
            match Self::extract_watched_movie_info(frags[i].as_str()) {
                Some(p) => {
                    let ghost pv = prelim_view(p);
                    out.push(p);
                    proof {
                        assert(out@.map_values(|p: PreliminaryMovieInformation| prelim_view(p))
                            =~= prev + seq![pv]);
                        assert(prev + seq![pv] + entries_from_frags(fviews.skip(i + 1)) =~= prev + (
                        seq![pv] + entries_from_frags(fviews.skip(i + 1))));
                    }
                },
                None => {},
            }
            i = i + 1;
        }
        proof {
            assert(fviews.skip(n as int).len() == 0);
            assert(out@.map_values(|p: PreliminaryMovieInformation| prelim_view(p))
                + Seq::<(Seq<char>, Option<u32>)>::empty() =~= out@.map_values(
                |p: PreliminaryMovieInformation| prelim_view(p),
            ));
        }
        out
    }

    /// Reads one fragment: the first anchor's link made absolute, and
    /// the first readable star rating; `None` when no usable link
    /// exists, so the caller drops the fragment.
    fn extract_watched_movie_info(watched_movie_html: &str) -> (r: Option<
        PreliminaryMovieInformation,
    >)
        ensures
            match r {
                Some(p) => watched_info_of(html_elements(watched_movie_html@)) == Some(
                    prelim_view(p),
                ) && match p.rating {
                    Some(v) => rating_ok(v),
                    None => true,
                },
                None => watched_info_of(html_elements(watched_movie_html@)) is None,
            },
    {
        let elems = parse_html_elements(watched_movie_html);
        let ghost doc = html_elements(watched_movie_html@);
        let n = elems.len();

        // The first anchor decides the URL.
        let mut url: Option<String> = None;
        let mut i: usize = 0;
        assert(doc.skip(0) =~= doc);
        while i < n
            invariant_except_break
                url is None,
                frag_url_of(doc) == frag_url_of(doc.skip(i as int)),
            invariant
                0 <= i <= n,
                n == elems.len(),
                views_of_elems(elems@) == doc,
                doc == html_elements(watched_movie_html@),
                doc.len() == n,
            ensures
                match url {
                    Some(u) => frag_url_of(doc) == Some(u@),
                    None => frag_url_of(doc) is None,
                },
            decreases n - i,
    {
            proof {
                assert(doc[i as int] == elems@[i as int]@);
                assert(doc.skip(i as int)[0] == doc[i as int]);
                assert(doc.skip(i as int).drop_first() =~= doc.skip(i + 1));
            }
            if is_named(&elems[i], "a") {
                match get_attr(&elems[i], "href") {
                    Some(h) => {
                        url = Some(crate::urls::get_base_url().concat(h.as_str()));
                    },
                    None => {
                        return None;
                    },
                }
                break;
            }
            i = i + 1;
        }
        let url = match url {
            Some(u) => u,
            None => {
                assert(doc.skip(n as int).len() == 0);
                return None;
            },
        };

        // The first readable star rating, if any.
        let mut rating: Option<Rating> = None;
        let mut j: usize = 0;
        assert(doc.skip(0) =~= doc);
        while j < n
            invariant_except_break
                rating is None,
                stars_rating_of(doc) == stars_rating_of(doc.skip(j as int)),
            invariant
                0 <= j <= n,
                n == elems.len(),
                views_of_elems(elems@) == doc,
                doc.len() == n,
            ensures
                match rating {
                    Some(v) => stars_rating_of(doc) == Some(v.tenths) && rating_ok(v),
                    None => stars_rating_of(doc) is None,
                },
            decreases n - j,
        {
            proof {
                assert(doc[j as int] == elems@[j as int]@);
                assert(doc.skip(j as int)[0] == doc[j as int]);
                assert(doc.skip(j as int).drop_first() =~= doc.skip(j + 1));
            }
            if is_named(&elems[j], "span") && elem_has_class(&elems[j], "stars") {
                match span_rating(&elems[j]) {
                    Some(v) => {
                        rating = Some(v);
                        break;
                    },
                    None => {},
                }
            }
            j = j + 1;
        }
        proof {
            if j == n && rating is None {
                assert(doc.skip(n as int).len() == 0);
            }
        }
        Some(PreliminaryMovieInformation { movie_url: url, rating })
    }

    /// Splits a watched-list page into one serialized fragment per
    /// movie item.
    fn break_watched_movies_html_per_movie(full_watched_page_html: &str) -> (r: Result<
        Vec<String>,
        String,
    >)
        ensures
            match r {
                Ok(v) => v@.map_values(|s: String| s@) == watched_fragments_of(
                    html_elements(full_watched_page_html@),
                ),
                Err(_) => false,
            },
    {
        let elems = parse_html_elements(full_watched_page_html);
        let ghost doc = html_elements(full_watched_page_html@);
        let n = elems.len();
        let mut out: Vec<String> = Vec::new();
        let mut i: usize = 0;
        proof {
            assert(doc.skip(0) =~= doc);
            assert(out@.map_values(|s: String| s@) + watched_fragments_of(doc)
                =~= watched_fragments_of(doc));
        }
        while i < n
            invariant
                0 <= i <= n,
                n == elems.len(),
                views_of_elems(elems@) == doc,
                doc.len() == n,
                out@.map_values(|s: String| s@) + watched_fragments_of(doc.skip(i as int))
                    == watched_fragments_of(doc),
            decreases n - i,
        {
            proof {
                assert(doc[i as int] == elems@[i as int]@);
                assert(doc.skip(i as int)[0] == doc[i as int]);
                assert(doc.skip(i as int).drop_first() =~= doc.skip(i + 1));
            }
            if is_named(&elems[i], "li") && elem_has_class(&elems[i], "movie_list_item")
                && has_attr(&elems[i], "data-movie-pk") {
                assert(is_watched_item(doc[i as int]));
                let ghost prev = out@.map_values(|s: String| s@);
                out.push(elems[i].html.clone());
                proof {
                    assert(out@.map_values(|s: String| s@) =~= prev + seq![doc[i as int].html]);
                    assert(prev + seq![doc[i as int].html] + watched_fragments_of(doc.skip(i + 1))
                        =~= prev + (seq![doc[i as int].html] + watched_fragments_of(
                        doc.skip(i + 1),
                    )));
                }
            } else {
                assert(!is_watched_item(doc[i as int]));
            }
            i = i + 1;
        }
        proof {
            assert(doc.skip(n as int).len() == 0);
            assert(out@.map_values(|s: String| s@) + Seq::<Seq<char>>::empty() =~= out@.map_values(
                |s: String| s@,
            ));
        }
        Ok(out)
    }
}

// ---------------------------------------------------------------------
// Pagination discovery
// ---------------------------------------------------------------------

/// The page number a link advertises: the text between the page query
/// parameter and the next occurrence or the end, read as a number that
/// fits the page type.
pub open spec fn page_num_of_href(h: Seq<char>) -> Option<u32> {
    match segment_after_first_spec(h, "pagina="@) {
        None => None,
        Some(t) => if t.len() > 0 && all_digit_chars(t) && digits_value(t) <= i32::MAX {
            Some(digits_value(t) as u32)
        } else {
            None
        },
    }
}

/// The page number one element contributes, if it is an anchor whose
/// link carries one.
pub open spec fn elem_page_num(e: ElemModel) -> Option<u32> {
    if e.name == "a"@ {
        match attr_of(e.attrs, "href"@) {
            Some(h) => page_num_of_href(h),
            None => None,
        }
    } else {
        None
    }
}

/// All page numbers a document's anchors advertise, in document order.
pub open spec fn page_nums_of(doc: Seq<ElemModel>) -> Seq<u32>
    decreases doc.len(),
{
    if doc.len() == 0 {
        Seq::empty()
    } else {
        match elem_page_num(doc[0]) {
            Some(v) => seq![v] + page_nums_of(doc.drop_first()),
            None => page_nums_of(doc.drop_first()),
        }
    }
}

/// The largest value of the sequence (zero when it is empty).
pub open spec fn seq_max_u32(s: Seq<u32>) -> u32
    decreases s.len(),
{
    if s.len() == 0 {
        0
    } else {
        let m = seq_max_u32(s.drop_last());
        if s.last() > m {
            s.last()
        } else {
            m
        }
    }
}

/// The maximum bounds every element.
pub proof fn lemma_seq_max_ge(s: Seq<u32>, i: int)
    requires
        0 <= i < s.len(),
    ensures
        s[i] <= seq_max_u32(s),
    decreases s.len(),
{
    if i < s.len() - 1 {
        lemma_seq_max_ge(s.drop_last(), i);
    }
}

/// A non-empty sequence contains its maximum.
pub proof fn lemma_seq_max_contained(s: Seq<u32>)
    requires
        s.len() > 0,
    ensures
        s.contains(seq_max_u32(s)),
    decreases s.len(),
{
    if s.len() == 1 {
        assert(seq_max_u32(s.drop_last()) == 0);
        assert(s[0] == s.last());
    } else {
        let m = seq_max_u32(s.drop_last());
        if s.last() > m {
            assert(s[s.len() - 1] == s.last());
        } else {
            lemma_seq_max_contained(s.drop_last());
            let k = choose|k: int| 0 <= k < s.len() - 1 && s.drop_last()[k] == m;
            assert(s[k] == m);
        }
    }
}

/// Law: the discovered page count depends only on which page numbers
/// occur, not on the order of the anchors that carry them.
pub proof fn lemma_page_max_order_independent(a: Seq<u32>, b: Seq<u32>)
    requires
        a.to_multiset() == b.to_multiset(),
    ensures
        seq_max_u32(a) == seq_max_u32(b),
{
    broadcast use vstd::seq_lib::group_to_multiset_ensures;

    a.to_multiset_ensures();
    b.to_multiset_ensures();
    if a.len() == 0 {
        assert(b.len() == 0);
    } else {
        assert(b.len() > 0);
        lemma_seq_max_contained(a);
        lemma_seq_max_contained(b);
        assert(b.contains(seq_max_u32(a))) by {
            assert(a.to_multiset().count(seq_max_u32(a)) > 0);
        }
        assert(a.contains(seq_max_u32(b))) by {
            assert(b.to_multiset().count(seq_max_u32(b)) > 0);
        }
        let i = choose|i: int| 0 <= i < b.len() && b[i] == seq_max_u32(a);
        lemma_seq_max_ge(b, i);
        let j = choose|j: int| 0 <= j < a.len() && a[j] == seq_max_u32(b);
        lemma_seq_max_ge(a, j);
    }
}

impl MovieExtractor {
    /// The largest page number any anchor of the document advertises,
    /// or `None` when no anchor advertises one.
    pub fn get_last_page_from_html(page_html: &str) -> (r: Option<i32>)
        ensures
            ({
                let nums = page_nums_of(html_elements(page_html@));
                match r {
                    Some(v) => nums.len() > 0 && v == seq_max_u32(nums) as i32 && v >= 0,
                    None => nums.len() == 0,
                }
            }),
    {
        let elems = parse_html_elements(page_html);
        let ghost doc = html_elements(page_html@);
        let n = elems.len();
        let mut found = false;
        let mut best: u32 = 0;
        let ghost mut gnums: Seq<u32> = Seq::empty();
        let mut i: usize = 0;
        proof {
            assert(doc.skip(0) =~= doc);
            assert(gnums + page_nums_of(doc) =~= page_nums_of(doc));
        }
        while i < n
            invariant
                0 <= i <= n,
                n == elems.len(),
                views_of_elems(elems@) == doc,
                doc == html_elements(page_html@),
                doc.len() == n,
                gnums + page_nums_of(doc.skip(i as int)) == page_nums_of(doc),
                found == (gnums.len() > 0),
                found ==> best == seq_max_u32(gnums) && best <= i32::MAX,
                !found ==> gnums.len() == 0,
            decreases n - i,
        {
            proof {
                assert(doc[i as int] == elems@[i as int]@);
                assert(doc.skip(i as int)[0] == doc[i as int]);
                assert(doc.skip(i as int).drop_first() =~= doc.skip(i + 1));
            }
            let mut candidate: Option<u32> = None;
            if is_named(&elems[i], "a") {
                match get_attr(&elems[i], "href") {
                    Some(h) => {
                        match segment_after_first(h.as_str(), "pagina=") {
                            Some(t) => {
                                match crate::text_util::parse_u32_digits(t.as_str()) {
                                    Some(v) => {
                                        if v <= 2147483647 {
                                            candidate = Some(v);
                                        }
                                    },
                                    None => {},
                                }
                            },
                            None => {},
                        }
                    },
                    None => {},
                }
            }
            match candidate {
                Some(v) => {
                    assert(elem_page_num(doc[i as int]) == Some(v));
                    let ghost prev = gnums;
                    proof {
                        gnums = gnums.push(v);
                        assert(gnums.drop_last() =~= prev);
                        assert(gnums.last() == v);
                        assert(prev + seq![v] + page_nums_of(doc.skip(i + 1)) =~= prev + (seq![v]
                            + page_nums_of(doc.skip(i + 1))));
                        assert(gnums =~= prev + seq![v]);
                        if prev.len() == 0 {
                            assert(seq_max_u32(prev) == 0);
                        }
                        assert(seq_max_u32(gnums) == (if v > seq_max_u32(prev) {
                            v
                        } else {
                            seq_max_u32(prev)
                        }));
                    }
                    if !found || v > best {
                        best = v;
                        found = true;
                    }
                },
                None => {
                    assert(elem_page_num(doc[i as int]) is None);
                },
            }
            i = i + 1;
        }
        proof {
            assert(doc.skip(n as int).len() == 0);
            assert(gnums + Seq::<u32>::empty() =~= gnums);
            assert(gnums =~= page_nums_of(doc));
        }
        if found {
            Some(best as i32)
        } else {
            None
        }
    }

    /// The page count to crawl: the largest advertised page number,
    /// or 1 when the listing advertises none.
    pub fn discover_last_page_from_html(page_html: &str) -> (n: i32)
        ensures
            ({
                let nums = page_nums_of(html_elements(page_html@));
                if nums.len() > 0 {
                    n == seq_max_u32(nums) as i32
                } else {
                    n == 1
                }
            }),
    {
        match Self::get_last_page_from_html(page_html) {
            Some(v) => v,
            None => 1,
        }
    }
}

} // verus!
