//! Readings of the two pages the tap list is built from: the rating link on
//! a rating site's search page, and the address of the menu's JSON feed.
use vstd::prelude::*;
use crate::scraper::{
    attr_lookup, elements_by_class, elements_view, find_elements_by_class, find_first_anchor,
    first_anchor,
};
use crate::text::{
    chars_of, find_from, find_from_exec, is_quote, lemma_find_from, lemma_run_end, occurs_at,
    occurs_at_exec, push_str, run_end, skip, string_of, Run,
};

verus! {

/// What went wrong, with a message.
#[derive(Debug)]
pub enum AppError {
    Client(String),
    Network(String),
    Parse(String),
    Internal(String),
}

impl AppError {
    /// The kind of failure followed by its message, as in `Parse error: ...`.
    pub fn message(&self) -> (r: String)
        ensures
            r@ == match self {
                AppError::Client(m) => "Client error: "@ + m@,
                AppError::Network(m) => "Network error: "@ + m@,
                AppError::Parse(m) => "Parse error: "@ + m@,
                AppError::Internal(m) => "Internal error: "@ + m@,
            },
    {
        let mut r = String::new();
        match self {
            AppError::Client(m) => {
                push_str(&mut r, "Client error: ");
                push_str(&mut r, m.as_str());
            },
            AppError::Network(m) => {
                push_str(&mut r, "Network error: ");
                push_str(&mut r, m.as_str());
            },
            AppError::Parse(m) => {
                push_str(&mut r, "Parse error: ");
                push_str(&mut r, m.as_str());
            },
            AppError::Internal(m) => {
                push_str(&mut r, "Internal error: ");
                push_str(&mut r, m.as_str());
            },
        }
        assert(Seq::<char>::empty() + "Client error: "@ =~= "Client error: "@);
        assert(Seq::<char>::empty() + "Network error: "@ =~= "Network error: "@);
        assert(Seq::<char>::empty() + "Parse error: "@ =~= "Parse error: "@);
        assert(Seq::<char>::empty() + "Internal error: "@ =~= "Internal error: "@);
        r
    }
}

/// The rating site that search results link into.
pub const BASE_UNTAPPD_URL: &'static str = "https://untappd.com";

/// The menu service whose pages and feeds are read.
pub const BASE_TAPHUNTER_URL: &'static str = "http://www.taphunter.com/bigscreen";

// ---------------------------------------------------------------------------
// The rating link

/// What a search page gives: from its first `beer-item` element, a link to
/// the first anchor's `href` under the rating site, whose text is the
/// `data-rating` of the item's first `caps` element. Otherwise the message
/// that names the first part that is missing.
pub open spec fn rating_link(html: Seq<char>) -> Result<Seq<char>, Seq<char>> {
    let items = elements_by_class(html, "beer-item"@);
    if items.len() == 0 {
        Err("Could not find beer-item div"@)
    } else {
        let item = items[0].content;
        match first_anchor(item) {
            None => Err("Could not find anchor tag"@),
            Some(anchor) => match attr_lookup(anchor.attributes, "href"@) {
                None => Err("Could not find href attribute"@),
                Some(href) => {
                    let caps = elements_by_class(item, "caps"@);
                    if caps.len() == 0 {
                        Err("Could not find caps div"@)
                    } else {
                        match attr_lookup(caps[0].attributes, "data-rating"@) {
                            None => Err("Could not find data-rating attribute"@),
                            Some(rating) => Ok(
                                "<a href=\""@ + BASE_UNTAPPD_URL@ + href + "\">"@ + rating
                                    + "</a>"@,
                            ),
                        }
                    }
                }
            },
        }
    }
}

/// Reads a search page of the rating site: a link to the first result,
/// labelled with its rating, or a parse error that names what is missing.
pub fn extract_rating_link(html: &str) -> (r: Result<String, AppError>)
    ensures
        match r {
            Ok(s) => rating_link(html@) == Ok::<Seq<char>, Seq<char>>(s@),
            Err(e) => e is Parse && rating_link(html@) == Err::<Seq<char>, Seq<char>>(
                e->Parse_0@,
            ),
        },
{
    let items = find_elements_by_class(html, "beer-item");
    if items.len() == 0 {
        return Err(AppError::Parse("Could not find beer-item div".to_owned()));
    }
    assert(elements_view(items@)[0] == items@[0]@);
    let item = items[0].get_content();
    let anchor = match find_first_anchor(item) {
        Some(a) => a,
        None => {
            return Err(AppError::Parse("Could not find anchor tag".to_owned()));
        },
    };
    let href = match anchor.get_attr("href") {
        Some(v) => v,
        None => {
            return Err(AppError::Parse("Could not find href attribute".to_owned()));
        },
    };
    let caps = find_elements_by_class(item, "caps");
    if caps.len() == 0 {
        return Err(AppError::Parse("Could not find caps div".to_owned()));
    }
    assert(elements_view(caps@)[0] == caps@[0]@);
    let rating = match caps[0].get_attr("data-rating") {
        Some(v) => v,
        None => {
            return Err(AppError::Parse("Could not find data-rating attribute".to_owned()));
        },
    };
    let mut link = String::new();
    push_str(&mut link, "<a href=\"");
    push_str(&mut link, BASE_UNTAPPD_URL);
    push_str(&mut link, href.as_str());
    push_str(&mut link, "\">");
    push_str(&mut link, rating.as_str());
    push_str(&mut link, "</a>");
    assert(link@ =~= "<a href=\""@ + BASE_UNTAPPD_URL@ + href@ + "\">"@ + rating@ + "</a>"@);
    Ok(link)
}


// ---------------------------------------------------------------------------
// The menu feed

/// After `s`: `json/`, then one or more characters other than quotes, then a
/// quote. Gives the bounds of the characters between.
pub open spec fn json_path_after(h: Seq<char>, s: int) -> Option<(int, int)> {
    if occurs_at(h, s, "json/"@) {
        let b = s + "json/"@.len();
        let e = run_end(h, b, Run::NotQuote);
        if b < e < h.len() {
            Some((b, e))
        } else {
            None
        }
    } else {
        None
    }
}

/// A call `getJSON(` starts at `p`, with a quote, an optional `./` (any
/// character but a line break, then `/`), and a path under `json/` up to the
/// next quote. Gives the bounds of that path; the form with the two extra
/// characters is tried first.
pub open spec fn json_call_at(h: Seq<char>, p: int) -> Option<(int, int)> {
    let q = p + "getJSON("@.len();
    if occurs_at(h, p, "getJSON("@) && q < h.len() && is_quote(h[q]) {
        let r = q + 1;
        let with_dot = if r + 1 < h.len() && h[r] != '\n' && h[r + 1] == '/' {
            json_path_after(h, r + 2)
        } else {
            None
        };
        match with_dot {
            Some(b) => Some(b),
            None => json_path_after(h, r),
        }
    } else {
        None
    }
}

/// The path of the first `getJSON(` call at or after `i`.
pub open spec fn json_call_from(h: Seq<char>, i: int) -> Option<(int, int)>
    decreases h.len() + 1 - i,
{
    if i < 0 || i > h.len() {
        None
    } else {
        match json_call_at(h, i) {
            Some(b) => Some(b),
            None => json_call_from(h, i + 1),
        }
    }
}

/// The address of the menu's JSON feed named by the first `getJSON(` call
/// of the page, or the message for a page without one.
pub open spec fn menu_json_url(html: Seq<char>) -> Result<Seq<char>, Seq<char>> {
    match json_call_from(html, 0) {
        Some((b, e)) => Ok(BASE_TAPHUNTER_URL@ + "/json/"@ + html.subrange(b, e)),
        None => Err("Could not find getJSON URL"@),
    }
}

fn json_path_after_exec(h: &Vec<char>, s: usize, word: &Vec<char>) -> (r: Option<(usize, usize)>)
    requires
        word@ == "json/"@,
    ensures
        match r {
            Some((b, e)) => json_path_after(h@, s as int) == Some((b as int, e as int)) && b <= e
                <= h.len(),
            None => json_path_after(h@, s as int) is None,
        },
{
    if occurs_at_exec(h, s, word) {
        assert(s + word@.len() <= h.len());
        let b = s + word.len();
        let e = skip(h, b, Run::NotQuote);
        if b < e && e < h.len() {
            return Some((b, e));
        }
    }
    None
}

fn json_call_at_exec(h: &Vec<char>, p: usize, call: &Vec<char>, word: &Vec<char>) -> (r: Option<
    (usize, usize),
>)
    requires
        call@ == "getJSON("@,
        word@ == "json/"@,
    ensures
        match r {
            Some((b, e)) => json_call_at(h@, p as int) == Some((b as int, e as int)) && b <= e
                <= h.len(),
            None => json_call_at(h@, p as int) is None,
        },
{
    if occurs_at_exec(h, p, call) {
        assert(p + call@.len() <= h.len());
        let q = p + call.len();
        if q < h.len() && (h[q] == '\'' || h[q] == '"') {
            let r = q + 1;
            if r < h.len() - 1 && h[r] != '\n' && h[r + 1] == '/' {
                match json_path_after_exec(h, r + 2, word) {
                    Some(b) => {
                        return Some(b);
                    },
                    None => {},
                }
            }
            return json_path_after_exec(h, r, word);
        }
    }
    None
}

/// Reads the menu page: the address of its JSON feed, taken from the first
/// `getJSON('json/...')` call (optionally `./json/...`), or a parse error.
pub fn extract_menu_json_url(html: &str) -> (r: Result<String, AppError>)
    ensures
        match r {
            Ok(s) => menu_json_url(html@) == Ok::<Seq<char>, Seq<char>>(s@),
            Err(e) => e is Parse && menu_json_url(html@) == Err::<Seq<char>, Seq<char>>(
                e->Parse_0@,
            ),
        },
{
    let h = chars_of(html);
    let call = chars_of("getJSON(");
    let word = chars_of("json/");
    let mut i: usize = 0;
    while i <= h.len()
        invariant
            i <= h.len() + 1,
            h@ == html@,
            call@ == "getJSON("@,
            word@ == "json/"@,
            json_call_from(h@, i as int) == json_call_from(h@, 0),
        decreases h.len() + 1 - i,
    {
        match json_call_at_exec(&h, i, &call, &word) {
            Some((b, e)) => {
                let mut url = String::new();
                push_str(&mut url, BASE_TAPHUNTER_URL);
                push_str(&mut url, "/json/");
                let path = string_of(&h, b, e);
                push_str(&mut url, path.as_str());
                assert(url@ =~= BASE_TAPHUNTER_URL@ + "/json/"@ + h@.subrange(b as int, e as int));
                return Ok(url);
            },
            None => {},
        }
        if i == h.len() {
            assert(json_call_from(h@, i + 1) is None);
            assert(json_call_from(h@, i as int) is None);
            return Err(AppError::Parse("Could not find getJSON URL".to_owned()));
        }
        i = i + 1;
    }
    Err(AppError::Parse("Could not find getJSON URL".to_owned()))
}

} // verus!
