//! The site's URL templates: the base address and the two per-list
//! page templates, 1-based; page 1 has no page query parameter.

use vstd::prelude::*;
use crate::text_util::{dec_str_of, u32_to_string};

verus! {

/// The site's root address.
pub open spec fn base_url_spec() -> Seq<char> {
    "https://filmow.com"@
}

pub fn get_base_url() -> (r: String)
    ensures
        r@ == base_url_spec(),
{
    String::from_str("https://filmow.com")
}

/// The address of one watchlist listing page.
pub open spec fn watchlist_url_spec(user: Seq<char>, page: int) -> Seq<char> {
    if page == 1 {
        base_url_spec() + "/usuario/"@ + user + "/quero-ver/"@
    } else {
        base_url_spec() + "/usuario/"@ + user + "/quero-ver/?pagina="@ + dec_str_of(page as nat)
    }
}

/// The address of one watched-list listing page.
pub open spec fn watched_url_spec(user: Seq<char>, page: int) -> Seq<char> {
    if page == 1 {
        base_url_spec() + "/usuario/"@ + user + "/ja-vi/"@
    } else {
        base_url_spec() + "/usuario/"@ + user + "/ja-vi/?pagina="@ + dec_str_of(page as nat)
    }
}

pub fn get_watchlist_url_for_page(user: &str, page: i32) -> (r: String)
    requires
        page >= 1,
    ensures
        r@ == watchlist_url_spec(user@, page as int),
{
    let mut s = get_base_url();
    s.append("/usuario/");
    s.append(user);
    if page == 1 {
        s.append("/quero-ver/");
    } else {
        s.append("/quero-ver/?pagina=");
        let num = u32_to_string(page as u32);
        s.append(num.as_str());
    }
    proof {
        assert(s@ =~= watchlist_url_spec(user@, page as int));
    }
    s
}

pub fn get_watched_url_for_page(user: &str, page: i32) -> (r: String)
    requires
        page >= 1,
    ensures
        r@ == watched_url_spec(user@, page as int),
{
    let mut s = get_base_url();
    s.append("/usuario/");
    s.append(user);
    if page == 1 {
        s.append("/ja-vi/");
    } else {
        s.append("/ja-vi/?pagina=");
        let num = u32_to_string(page as u32);
        s.append(num.as_str());
    }
    proof {
        assert(s@ =~= watched_url_spec(user@, page as int));
    }
    s
}

} // verus!
