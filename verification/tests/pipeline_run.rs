use filmow2letterboxd::csv_writer::CsvWriter;
use filmow2letterboxd::movie::{Movie, PreliminaryMovieInformation, Rating};
use filmow2letterboxd::movie_extractor::MovieExtractor;
use filmow2letterboxd::pipeline::{
    build_movies_from_results, dedup_entries, flatten_page_entries, preliminary_info_for,
    sort_movies_by_title, url_for_page, ListKind,
};
use filmow2letterboxd::retry::retry_backoff_ms;
use filmow2letterboxd::urls::{get_base_url, get_watched_url_for_page, get_watchlist_url_for_page};

// A fixed two-page watchlist and one-page watched list, with every
// detail page available, standing in for the remote site.

const WATCHLIST_PAGE_1: &str = "<html><body>\
    <a href=\"/usuario/fixture/quero-ver/?pagina=2\">2</a>\
    <a href=\"/filme/carol\" data-movie-pk=\"3\">Carol</a>\
    <a href=\"/filme/carol\" data-movie-pk=\"3\"><img src=\"p.jpg\"></a>\
    <a href=\"/filme/alpha\" data-movie-pk=\"1\">Alpha</a>\
    <a href=\"/filme/beta\" data-movie-pk=\"2\">Beta</a>\
    </body></html>";

const WATCHLIST_PAGE_2: &str = "<html><body>\
    <a href=\"/filme/delta\" data-movie-pk=\"4\">Delta</a>\
    </body></html>";

const WATCHED_PAGE_1: &str = "<html><body><ul>\
    <li class=\"movie_list_item\" data-movie-pk=\"5\">\
    <a href=\"/filme/omega\">Omega</a>\
    <span class=\"stars\" title=\"Nota: 4.0\"></span>\
    </li>\
    <li class=\"movie_list_item\" data-movie-pk=\"6\">\
    <a href=\"/filme/gamma\">Gamma</a>\
    </li>\
    </ul></body></html>";

fn detail_html(title: &str, director: &str, year: &str) -> String {
    format!(
        "<html><body><h2 class=\"movie-original-title\">{}</h2>\
         <span itemprop=\"director\">{}</span>\
         <small class=\"release\">{}</small></body></html>",
        title, director, year
    )
}

fn fixture_fetch(url: &str) -> Option<String> {
    match url {
        "https://filmow.com/usuario/fixture/quero-ver/" => Some(WATCHLIST_PAGE_1.to_string()),
        "https://filmow.com/usuario/fixture/quero-ver/?pagina=2" => {
            Some(WATCHLIST_PAGE_2.to_string())
        }
        "https://filmow.com/usuario/fixture/ja-vi/" => Some(WATCHED_PAGE_1.to_string()),
        "https://filmow.com/filme/alpha" => Some(detail_html("Alpha", "Dir A", "2001")),
        "https://filmow.com/filme/beta" => Some(detail_html("Beta", "Dir B", "2002")),
        "https://filmow.com/filme/carol" => Some(detail_html("Carol", "Dir C", "2003")),
        "https://filmow.com/filme/delta" => Some(detail_html("Delta", "Dir D", "2004")),
        "https://filmow.com/filme/omega" => Some(detail_html("Omega", "Dir O", "1995")),
        "https://filmow.com/filme/gamma" => Some(detail_html("Gamma", "Dir G", "1996")),
        _ => None,
    }
}

// The crawl as the program runs it, against the fixture instead of the
// network: discover the page count, extract every page's entries,
// fetch and extract every detail page, merge, and sort.
fn run_fixture_list(kind: ListKind, user: &str) -> Vec<Movie> {
    let first_page_url = url_for_page(kind, user, 1);
    let first_page = fixture_fetch(&first_page_url).expect("page 1 must exist");
    let last_page = MovieExtractor::discover_last_page_from_html(&first_page);

    let mut pages: Vec<Vec<PreliminaryMovieInformation>> = Vec::new();
    for page in 1..=last_page {
        let page_html = match fixture_fetch(&url_for_page(kind, user, page)) {
            Some(html) => html,
            None => {
                pages.push(Vec::new());
                continue;
            }
        };
        pages.push(preliminary_info_for(kind, &page_html));
    }
    let entries = flatten_page_entries(pages);

    let mut items: Vec<(PreliminaryMovieInformation, Result<Movie, String>)> = Vec::new();
    for entry in entries {
        let detail = match fixture_fetch(&entry.movie_url) {
            Some(html) => MovieExtractor::extract_movie_from_html(&html, &entry.movie_url),
            None => Err(format!("Failed to get HTML for url: {}", entry.movie_url)),
        };
        items.push((entry, detail));
    }
    let movies = build_movies_from_results(items);
    sort_movies_by_title(movies)
}

#[test]
fn fixture_watchlist_has_four_sorted_records() {
    let movies = run_fixture_list(ListKind::Watchlist, "fixture");
    let titles: Vec<&str> = movies.iter().map(|m| m.title.as_str()).collect();
    assert_eq!(titles, vec!["Alpha", "Beta", "Carol", "Delta"]);
    assert!(movies.iter().all(|m| m.rating.is_none()));
    assert_eq!(movies[0].director, "Dir A");
    assert_eq!(movies[0].year, 2001);
}

#[test]
fn fixture_watched_list_keeps_listed_ratings() {
    let movies = run_fixture_list(ListKind::WatchedList, "fixture");
    let titles: Vec<&str> = movies.iter().map(|m| m.title.as_str()).collect();
    assert_eq!(titles, vec!["Gamma", "Omega"]);
    assert_eq!(movies[0].rating, None);
    assert_eq!(movies[1].rating, Some(Rating { tenths: 40 }));
    assert_eq!(movies[1].to_csvable_array(), vec!["Omega", "Dir O", "1995", "4"]);
}

#[test]
fn fixture_run_twice_is_identical() {
    let first = run_fixture_list(ListKind::Watchlist, "fixture");
    let second = run_fixture_list(ListKind::Watchlist, "fixture");
    assert_eq!(first, second);
    let first_watched = run_fixture_list(ListKind::WatchedList, "fixture");
    let second_watched = run_fixture_list(ListKind::WatchedList, "fixture");
    assert_eq!(first_watched, second_watched);
}

#[test]
fn failed_detail_page_only_drops_its_own_item() {
    let ok = PreliminaryMovieInformation {
        movie_url: String::from("https://filmow.com/filme/good"),
        rating: Some(Rating { tenths: 30 }),
    };
    let bad = PreliminaryMovieInformation {
        movie_url: String::from("https://filmow.com/filme/bad"),
        rating: None,
    };
    let good_movie = Movie {
        title: String::from("Good"),
        director: String::from("Dir"),
        year: 2000,
        rating: None,
    };
    let items = vec![
        (bad, Err(String::from("Could not extract director from page: https://filmow.com/filme/bad"))),
        (ok, Ok(good_movie)),
    ];
    let movies = build_movies_from_results(items);
    assert_eq!(movies.len(), 1);
    assert_eq!(movies[0].title, "Good");
    assert_eq!(movies[0].rating, Some(Rating { tenths: 30 }));
}

#[test]
fn sort_is_stable_for_equal_titles() {
    let a = Movie {
        title: String::from("Same"),
        director: String::from("First"),
        year: 1990,
        rating: None,
    };
    let b = Movie {
        title: String::from("Same"),
        director: String::from("Second"),
        year: 1991,
        rating: None,
    };
    let c = Movie {
        title: String::from("Earlier"),
        director: String::from("Third"),
        year: 1992,
        rating: None,
    };
    let sorted = sort_movies_by_title(vec![a, b, c]);
    let described: Vec<(&str, &str)> = sorted
        .iter()
        .map(|m| (m.title.as_str(), m.director.as_str()))
        .collect();
    assert_eq!(
        described,
        vec![("Earlier", "Third"), ("Same", "First"), ("Same", "Second")]
    );
}

#[test]
fn cross_page_dedup_is_configurable() {
    let make = |url: &str| PreliminaryMovieInformation {
        movie_url: String::from(url),
        rating: None,
    };
    let entries = vec![make("u1"), make("u2"), make("u1")];
    let kept = dedup_entries(entries, false);
    assert_eq!(kept.len(), 3);
    let deduped = dedup_entries(kept, true);
    let urls: Vec<&str> = deduped.iter().map(|e| e.movie_url.as_str()).collect();
    assert_eq!(urls, vec!["u1", "u2"]);
}

#[test]
fn url_templates_match_the_site() {
    assert_eq!(get_base_url(), "https://filmow.com");
    assert_eq!(
        get_watchlist_url_for_page("maria", 1),
        "https://filmow.com/usuario/maria/quero-ver/"
    );
    assert_eq!(
        get_watchlist_url_for_page("maria", 3),
        "https://filmow.com/usuario/maria/quero-ver/?pagina=3"
    );
    assert_eq!(
        get_watched_url_for_page("maria", 1),
        "https://filmow.com/usuario/maria/ja-vi/"
    );
    assert_eq!(
        get_watched_url_for_page("maria", 12),
        "https://filmow.com/usuario/maria/ja-vi/?pagina=12"
    );
}

#[test]
fn retry_policy_backs_off_and_gives_up() {
    assert_eq!(retry_backoff_ms(false, 1), Some(10));
    assert_eq!(retry_backoff_ms(false, 2), Some(100));
    assert_eq!(retry_backoff_ms(false, 3), Some(1000));
    assert_eq!(retry_backoff_ms(false, 4), Some(10000));
    assert_eq!(retry_backoff_ms(false, 5), None);
    assert_eq!(retry_backoff_ms(true, 1), None);
}

#[test]
fn csv_rows_start_with_the_header() {
    let movies = vec![Movie {
        title: String::from("Alpha"),
        director: String::from("Dir A"),
        year: 2001,
        rating: Some(Rating { tenths: 45 }),
    }];
    let rows = CsvWriter::csv_rows(&movies);
    assert_eq!(rows.len(), 2);
    assert_eq!(rows[0], vec!["Title", "Directors", "Year", "Rating"]);
    assert_eq!(rows[1], vec!["Alpha", "Dir A", "2001", "4.5"]);
}
