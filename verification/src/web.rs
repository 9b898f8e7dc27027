use vstd::prelude::*;

use crate::markup::{html_minified, minify};
use crate::sequences::selects;
use crate::spanishdict::{
    copy_examples, error_message, example_views, examples_tagged, extract_filter_tags, filter_examples,
    is_top_tags, opt_text, CorpusExample, CorpusExampleView, FilterTag, SdictError, Term,
};
use crate::text::{contains, has_substring, hex_digit, is_unreserved, lowercase_of, percent_encoded, trim, trimmed, url_encode};
use vstd::utf8::encode_utf8;

verus! {

// ---------------------------------------------------------------------------
// Template helpers
// ---------------------------------------------------------------------------

/// Convert an index to a letter (0 -> 'a', 1 -> 'b', ...)
/// Useful for rendering nested ordered lists. Indexes past 25 give 'z'.
pub fn index_to_letter(index: usize) -> (r: char)
    ensures
        r as u32 == 0x61 + (if index < 25 { index as u32 } else { 25u32 }),
{
    let clamped: u8 = if index < 25 { index as u8 } else { 25 };
    (0x61u8 + clamped) as char
}

// ---------------------------------------------------------------------------
// Request data
// ---------------------------------------------------------------------------

/// The search form posted by the search box.
pub struct SearchForm {
    pub term: String,
}

/// The query of a translation page.
pub struct TranslateQuery {
    pub filter: Option<String>,
    pub lang_from: Option<String>,
}

// ---------------------------------------------------------------------------
// Search
// ---------------------------------------------------------------------------

/// Where a search for `term` goes: home for a blank term, else the translation page of the
/// trimmed term, percent-encoded.
pub open spec fn search_target(term: Seq<char>) -> Seq<char> {
    if trimmed(term).len() == 0 {
        "/"@
    } else {
        "/translate/"@ + percent_encoded(encode_utf8(trimmed(term)))
    }
}

/// The address that a search for `term` redirects to.
pub fn search_location(term: &str) -> (r: String)
    ensures
        r@ == search_target(term@),
{
    let t = trim(term);
    if t.is_empty() {
        return "/".to_owned();
    }
    let mut location = "/translate/".to_owned();
    let encoded = url_encode(t);
    location.append(encoded.as_str());
    location
}

/// A character that may stand in a path segment of a URL as it is.
pub open spec fn is_url_safe(c: char) -> bool {
    ||| 'a' <= c <= 'z'
    ||| 'A' <= c <= 'Z'
    ||| '0' <= c <= '9'
    ||| c == '-'
    ||| c == '.'
    ||| c == '_'
    ||| c == '~'
    ||| c == '%'
}

/// Law: percent-encoding leaves only URL-safe characters (in particular no space, `/`, `?`
/// or `#`), whatever the bytes.
pub proof fn law_percent_encoded_is_url_safe(bytes: Seq<u8>)
    ensures
        forall|i: int| 0 <= i < percent_encoded(bytes).len() ==> is_url_safe(#[trigger] percent_encoded(bytes)[i]),
    decreases bytes.len(),
{
    if bytes.len() > 0 {
        law_percent_encoded_is_url_safe(bytes.drop_first());
        let b = bytes[0];
        let head = if is_unreserved(b) {
            seq![b as char]
        } else {
            seq!['%', hex_digit(b as int / 16), hex_digit(b as int % 16)]
        };
        let rest = percent_encoded(bytes.drop_first());
        assert(percent_encoded(bytes) == head + rest);
        assert forall|i: int| 0 <= i < head.len() implies is_url_safe(#[trigger] head[i]) by {
            if is_unreserved(b) {
                assert(head[i] == b as char);
            } else if i > 0 {
                let d = if i == 1 { b as int / 16 } else { b as int % 16 };
                assert(0 <= d < 16);
                assert(head[i] == hex_digit(d));
            }
        }
        assert forall|i: int| 0 <= i < percent_encoded(bytes).len() implies is_url_safe(
            #[trigger] percent_encoded(bytes)[i],
        ) by {
            if i < head.len() {
                assert(percent_encoded(bytes)[i] == head[i]);
            } else {
                assert(percent_encoded(bytes)[i] == rest[i - head.len()]);
            }
        }
    }
}

/// Law: the address a search redirects to is made of URL-safe characters and `/` only, so a
/// term with spaces, `?`, `#` or non-ASCII letters still stays within one path segment.
pub proof fn law_search_target_is_url_path(term: Seq<char>)
    ensures
        forall|i: int| 0 <= i < search_target(term).len() ==> is_url_safe(#[trigger] search_target(term)[i])
            || search_target(term)[i] == '/',
{
    reveal_strlit("/");
    reveal_strlit("/translate/");
    if trimmed(term).len() != 0 {
        let enc = percent_encoded(encode_utf8(trimmed(term)));
        law_percent_encoded_is_url_safe(encode_utf8(trimmed(term)));
        let prefix = "/translate/"@;
        assert forall|i: int| 0 <= i < search_target(term).len() implies is_url_safe(
            #[trigger] search_target(term)[i],
        ) || search_target(term)[i] == '/' by {
            if i < prefix.len() {
                assert(search_target(term)[i] == prefix[i]);
            } else {
                assert(search_target(term)[i] == enc[i - prefix.len()]);
            }
        }
    }
}

// ---------------------------------------------------------------------------
// Translation pages
// ---------------------------------------------------------------------------

/// The longest search term, in bytes, that is looked up.
pub const MAX_TERM_LENGTH: usize = 100;

/// The value and focus of the search box of a page.
pub struct SearchFormProps {
    pub value: String,
    pub autofocus: bool,
}

/// The page of a successful lookup.
pub struct ResultsPage {
    pub search: SearchFormProps,
    pub term: Term,
    pub filter_tags: Vec<FilterTag>,
    pub active_filter: Option<String>,
    pub active_lang_from: Option<String>,
    pub filtered_examples: Vec<CorpusExample>,
}

/// A page that says why there is nothing to show.
pub struct ErrorPage {
    pub search: SearchFormProps,
    pub message: String,
}

/// The page that answers a translation request.
pub enum Page {
    Results(ResultsPage),
    Error(ErrorPage),
}

/// An empty search box that has the focus, as on the home page.
pub fn blank_search() -> (r: SearchFormProps)
    ensures
        r.value@ == Seq::<char>::empty(),
        r.autofocus,
{
    SearchFormProps { value: String::new(), autofocus: true }
}

/// Whether `term` is too long to be looked up.
pub fn term_too_long(term: &str) -> (r: bool)
    ensures
        r == (encode_utf8(term@).len() > MAX_TERM_LENGTH),
{
    term.as_bytes().len() > MAX_TERM_LENGTH
}

/// The page for a term that is too long to be looked up.
pub fn too_long_page() -> (r: ErrorPage)
    ensures
        r.search.value@ == Seq::<char>::empty(),
        r.search.autofocus,
        r.message@ == "Search input is too long."@,
{
    ErrorPage { search: blank_search(), message: "Search input is too long.".to_owned() }
}

/// The text shown when a lookup failed for another reason than a missing entry.
pub open spec fn lookup_failed_text() -> Seq<char> {
    "Could not look up this term. Please try again."@
}

/// The page that answers the lookup of `term`, given its outcome and the page query.
pub fn translate_page(term: &str, outcome: Result<Term, SdictError>, query: TranslateQuery) -> (r: Page)
    ensures
        outcome matches Ok(t) ==> (r matches Page::Results(p) && {
            &&& p.search.value@ == t.query@
            &&& !p.search.autofocus
            &&& p.term@ == t@
            &&& is_top_tags(p.filter_tags@, example_views(t.examples@))
            &&& opt_text(p.active_filter) == opt_text(query.filter)
            &&& opt_text(p.active_lang_from) == opt_text(query.lang_from)
            &&& example_views(p.filtered_examples@) == match query.filter {
                Some(f) => examples_tagged(example_views(t.examples@), f@),
                None => example_views(t.examples@),
            }
            &&& query.filter matches Some(f) ==> selects(
                example_views(p.filtered_examples@),
                example_views(t.examples@),
                |e: CorpusExampleView| has_substring(lowercase_of(e.english), "<em>"@ + lowercase_of(f@) + "</em>"@),
            )
        }),
        outcome matches Err(SdictError::NotFound(t)) ==> (r matches Page::Error(p) && p.search.value@ == t@
            && p.search.autofocus && p.message@ == error_message(SdictError::NotFound(t))),
        outcome matches Err(e) && !(e is NotFound) ==> (r matches Page::Error(p) && p.search.value@ == term@
            && p.search.autofocus && p.message@ == lookup_failed_text()),
{
    match outcome {
        Ok(t) => {
            let filter_tags = extract_filter_tags(t.examples.as_slice());
            let filtered_examples = match &query.filter {
                Some(f) => filter_examples(t.examples.as_slice(), f.as_str()),
                None => copy_examples(&t.examples),
            };
            let search = SearchFormProps { value: t.query.clone(), autofocus: false };
            Page::Results(
                ResultsPage {
                    search,
                    term: t,
                    filter_tags,
                    active_filter: query.filter,
                    active_lang_from: query.lang_from,
                    filtered_examples,
                },
            )
        },
        Err(SdictError::NotFound(t)) => {
            let message = SdictError::NotFound(t.clone()).message();
            Page::Error(ErrorPage { search: SearchFormProps { value: t, autofocus: true }, message })
        },
        Err(_) => Page::Error(
            ErrorPage {
                search: SearchFormProps { value: term.to_owned(), autofocus: true },
                message: "Could not look up this term. Please try again.".to_owned(),
            },
        ),
    }
}

// ---------------------------------------------------------------------------
// Minifying pages
// ---------------------------------------------------------------------------

/// Whether a response with this content type is an HTML page.
pub fn is_html_content_type(content_type: Option<&str>) -> (r: bool)
    ensures
        r == (content_type matches Some(ct) && has_substring(ct@, "text/html"@)),
{
    match content_type {
        Some(ct) => contains(ct, "text/html"),
        None => false,
    }
}

/// The HTML page `body` made smaller: CSS minified, `type=text` kept on inputs.
pub fn minify_page(body: &str) -> (r: Vec<u8>)
    ensures
        r@ == html_minified(encode_utf8(body@), true, true),
{
    minify(body, true, true)
}

} // verus!
