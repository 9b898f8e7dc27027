use vstd::prelude::*;
use vstd::utf8::encode_utf8;

verus! {

/// What `scraper` finds in the HTML document `html` for the CSS selector `selector`: `None`
/// where the selector does not parse, else the text content of each matching element, in the
/// order in which `Html::select` yields them (the order in which the parser made the elements).
pub uninterp spec fn selected_texts(html: Seq<char>, selector: Seq<char>) -> Option<Seq<Seq<char>>>;

/// Parses `html` with `scraper::Html::parse_document`, parses `selector` with
/// `scraper::Selector::parse` and collects the text (`ElementRef::text`, joined) of each
/// element that `Html::select` yields; the result is named by `selected_texts`.
#[verifier::external_body]
pub(crate) fn select_texts(html: &str, selector: &str) -> (r: Option<Vec<String>>)
    ensures
        r is Some <==> selected_texts(html@, selector@) is Some,
        r matches Some(v) ==> crate::text::string_views(v@) == selected_texts(html@, selector@).unwrap(),
{
    let document = scraper::Html::parse_document(html);
    let sel = scraper::Selector::parse(selector).ok()?;
    Some(document.select(&sel).map(|e| e.text().collect::<String>()).collect())
}

/// What `ammonia` makes of the HTML fragment `html` when its `Builder` keeps every default but
/// allows only the tag `tag`: all other markup is stripped.
pub uninterp spec fn html_cleaned(html: Seq<char>, tag: Seq<char>) -> Seq<char>;

/// Sanitizes `html` with an `ammonia::Builder::new()` whose allowed tags are set to `{tag}`;
/// the result is named by `html_cleaned`. `Builder::clean` panics when an allowed tag is one
/// whose content it removes (`script` or `style` by default), hence the precondition.
#[verifier::external_body]
pub(crate) fn clean_html(html: &str, tag: &str) -> (r: String)
    requires
        tag@ != "script"@,
        tag@ != "style"@,
    ensures
        r@ == html_cleaned(html@, tag@),
{
    let mut builder = ammonia::Builder::new();
    builder.tags(std::collections::HashSet::from([tag]));
    builder.clean(html).to_string()
}

/// What `minify_html::minify` makes of the bytes `src` with a `Cfg` that keeps every default
/// but the two flags given.
pub uninterp spec fn html_minified(src: Seq<u8>, minify_css: bool, keep_input_type_text_attr: bool) -> Seq<u8>;

/// Calls `minify_html::minify` on the UTF-8 bytes of the HTML text `src`, with
/// `Cfg { minify_css, keep_input_type_text_attr, ..default }`; the result is named by
/// `html_minified`. `minify` is documented for UTF-8 HTML; it panics only where the content of
/// a `<style>` element or the value of a `style` attribute is not UTF-8, and both are cut from
/// the text at ASCII delimiters (character references decoded to characters), so they are
/// UTF-8 here.
#[verifier::external_body]
pub(crate) fn minify(src: &str, minify_css: bool, keep_input_type_text_attr: bool) -> (r: Vec<u8>)
    ensures
        r@ == html_minified(encode_utf8(src@), minify_css, keep_input_type_text_attr),
{
    let cfg = minify_html::Cfg { minify_css, keep_input_type_text_attr, ..Default::default() };
    minify_html::minify(src.as_bytes(), &cfg)
}

} // verus!
