use filmow2letterboxd::movie::{Movie, Rating};
use filmow2letterboxd::movie_extractor::MovieExtractor;

#[test]
fn page_discovery_takes_maximum() {
    let html = "<html><body>\
        <a href=\"/usuario/u/quero-ver/?pagina=2\">2</a>\
        <a href=\"/usuario/u/quero-ver/?pagina=5\">5</a>\
        <a href=\"/usuario/u/quero-ver/?pagina=3\">3</a>\
        </body></html>";
    assert_eq!(MovieExtractor::get_last_page_from_html(html), Some(5));
    assert_eq!(MovieExtractor::discover_last_page_from_html(html), 5);
}

#[test]
fn page_discovery_defaults_to_one() {
    let html = "<html><body><p>no pagination here</p><a href=\"/filme/x\">x</a></body></html>";
    assert_eq!(MovieExtractor::get_last_page_from_html(html), None);
    assert_eq!(MovieExtractor::discover_last_page_from_html(html), 1);
}

#[test]
fn page_discovery_ignores_unparsable_numbers() {
    let html = "<html><body>\
        <a href=\"?pagina=abc\">bad</a>\
        <a href=\"?pagina=7\">7</a>\
        </body></html>";
    assert_eq!(MovieExtractor::get_last_page_from_html(html), Some(7));
}

#[test]
fn watchlist_dedups_poster_and_title_anchor() {
    let html = "<html><body>\
        <a href=\"/filme/x\" data-movie-pk=\"10\"><img src=\"poster.jpg\"></a>\
        <a href=\"/filme/x\" data-movie-pk=\"10\">Movie X</a>\
        </body></html>";
    let entries = MovieExtractor::get_preliminary_info_for_watchlist(html);
    assert_eq!(entries.len(), 1);
    assert_eq!(entries[0].movie_url, "https://filmow.com/filme/x");
    assert!(entries[0].rating.is_none());
}

#[test]
fn watchlist_ignores_anchors_without_movie_marker() {
    let html = "<html><body>\
        <a href=\"/filme/a\" data-movie-pk=\"1\">A</a>\
        <a href=\"/elsewhere\">not a movie</a>\
        <a href=\"/filme/b\" data-movie-pk=\"2\">B</a>\
        </body></html>";
    let entries = MovieExtractor::get_preliminary_info_for_watchlist(html);
    let urls: Vec<&str> = entries.iter().map(|e| e.movie_url.as_str()).collect();
    assert_eq!(
        urls,
        vec!["https://filmow.com/filme/a", "https://filmow.com/filme/b"]
    );
}

#[test]
fn watched_rating_tooltip_parsed() {
    let html = "<html><body><ul>\
        <li class=\"movie_list_item\" data-movie-pk=\"7\">\
        <a href=\"/filme/y\">Y</a>\
        <span class=\"stars\" title=\"Nota: 4.5\"></span>\
        </li></ul></body></html>";
    let entries = MovieExtractor::get_preliminary_info_for_watched_movies(html);
    assert_eq!(entries.len(), 1);
    assert_eq!(entries[0].movie_url, "https://filmow.com/filme/y");
    assert_eq!(entries[0].rating, Some(Rating { tenths: 45 }));
}

#[test]
fn watched_rating_absent_is_not_an_error() {
    let html = "<html><body><ul>\
        <li class=\"movie_list_item\" data-movie-pk=\"8\">\
        <a href=\"/filme/z\">Z</a>\
        </li></ul></body></html>";
    let entries = MovieExtractor::get_preliminary_info_for_watched_movies(html);
    assert_eq!(entries.len(), 1);
    assert_eq!(entries[0].movie_url, "https://filmow.com/filme/z");
    assert_eq!(entries[0].rating, None);
}

#[test]
fn watched_rating_unreadable_tooltip_is_none() {
    let html = "<html><body><ul>\
        <li class=\"movie_list_item\" data-movie-pk=\"9\">\
        <a href=\"/filme/w\">W</a>\
        <span class=\"stars\" title=\"Nota:\"></span>\
        </li></ul></body></html>";
    let entries = MovieExtractor::get_preliminary_info_for_watched_movies(html);
    assert_eq!(entries.len(), 1);
    assert_eq!(entries[0].rating, None);
}

#[test]
fn watched_fragment_without_link_dropped_silently() {
    let html = "<html><body><ul>\
        <li class=\"movie_list_item\" data-movie-pk=\"1\">no anchor at all</li>\
        <li class=\"movie_list_item\" data-movie-pk=\"2\"><a href=\"/filme/ok\">ok</a></li>\
        </ul></body></html>";
    let entries = MovieExtractor::get_preliminary_info_for_watched_movies(html);
    assert_eq!(entries.len(), 1);
    assert_eq!(entries[0].movie_url, "https://filmow.com/filme/ok");
}

fn detail_page(title: &str, director: Option<&str>, year: Option<&str>) -> String {
    let mut html = String::from("<html><body>");
    if !title.is_empty() {
        html.push_str(&format!("<h2 class=\"movie-original-title\">{}</h2>", title));
    }
    if let Some(d) = director {
        html.push_str(&format!("<span itemprop=\"director\">{}</span>", d));
    }
    if let Some(y) = year {
        html.push_str(&format!("<small class=\"release\">{}</small>", y));
    }
    html.push_str("</body></html>");
    html
}

#[test]
fn detail_extraction_reads_all_fields() {
    let html = detail_page("Alpha", Some("  Ana Dir  "), Some("1999"));
    let movie = MovieExtractor::extract_movie_from_html(&html, "https://filmow.com/filme/a")
        .expect("all fields present");
    assert_eq!(movie.title, "Alpha");
    assert_eq!(movie.director, "Ana Dir");
    assert_eq!(movie.year, 1999);
    assert_eq!(movie.rating, None);
}

#[test]
fn detail_missing_director_fails_naming_it() {
    let html = detail_page("Alpha", None, Some("1999"));
    let err = MovieExtractor::extract_movie_from_html(&html, "https://filmow.com/filme/a")
        .expect_err("director missing");
    assert_eq!(
        err,
        "Could not extract director from page: https://filmow.com/filme/a"
    );
}

#[test]
fn detail_missing_title_fails_naming_it() {
    let html = detail_page("", Some("Ana Dir"), Some("1999"));
    let err = MovieExtractor::extract_movie_from_html(&html, "u").expect_err("title missing");
    assert_eq!(err, "Could not extract title from page: u");
}

#[test]
fn detail_unparsable_year_fails_naming_it() {
    let html = detail_page("Alpha", Some("Ana Dir"), Some("next year"));
    let err = MovieExtractor::extract_movie_from_html(&html, "u").expect_err("year unusable");
    assert_eq!(err, "Could not extract year from page: u");
}

#[test]
fn rating_parse_reads_exact_values() {
    assert_eq!(Rating::parse("4.5"), Some(Rating { tenths: 45 }));
    assert_eq!(Rating::parse("4"), Some(Rating { tenths: 40 }));
    assert_eq!(Rating::parse("0"), Some(Rating { tenths: 0 }));
    assert_eq!(Rating::parse("5"), Some(Rating { tenths: 50 }));
    assert_eq!(Rating::parse("6"), None);
    assert_eq!(Rating::parse("5.1"), None);
    assert_eq!(Rating::parse(""), None);
    assert_eq!(Rating::parse("x.5"), None);
}

#[test]
fn rating_display_matches_the_listing() {
    assert_eq!(Rating { tenths: 45 }.display_string(), "4.5");
    assert_eq!(Rating { tenths: 40 }.display_string(), "4");
    assert_eq!(Rating { tenths: 0 }.display_string(), "0");
}

#[test]
fn movie_columns_in_output_order() {
    let movie = Movie {
        title: String::from("Alpha"),
        director: String::from("Ana Dir"),
        year: 1999,
        rating: Some(Rating { tenths: 35 }),
    };
    assert_eq!(movie.to_csvable_array(), vec!["Alpha", "Ana Dir", "1999", "3.5"]);
    let unrated = Movie { rating: None, ..movie };
    assert_eq!(unrated.to_csvable_array(), vec!["Alpha", "Ana Dir", "1999", ""]);
    assert_eq!(Movie::csv_titles(), vec!["Title", "Directors", "Year", "Rating"]);
}
