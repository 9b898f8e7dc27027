use sdict::spanishdict::{CorpusExample, SdictError, Term};
use sdict::web::{
    blank_search, is_html_content_type, minify_page, search_location, term_too_long, too_long_page,
    translate_page, Page, MAX_TERM_LENGTH,
};
use sdict::{index_to_letter, TranslateQuery};

fn term_with_examples(examples: Vec<CorpusExample>) -> Term {
    Term {
        query: "comer".to_string(),
        headword: "comer".to_string(),
        quick_definition: Some("to eat".to_string()),
        headword_groups: Vec::new(),
        examples,
        lang_from: "es".to_string(),
        has_both_langs: false,
    }
}

fn example(english: &str) -> CorpusExample {
    CorpusExample { spanish: "x".to_string(), english: english.to_string() }
}

#[test]
fn index_to_letter_clamps_at_z() {
    assert_eq!(index_to_letter(0), 'a');
    assert_eq!(index_to_letter(1), 'b');
    assert_eq!(index_to_letter(25), 'z');
    assert_eq!(index_to_letter(26), 'z');
    assert_eq!(index_to_letter(usize::MAX), 'z');
}

#[test]
fn search_location_redirects() {
    assert_eq!(search_location("hola"), "/translate/hola");
    assert_eq!(search_location("  hola \n"), "/translate/hola");
    assert_eq!(search_location(""), "/");
    assert_eq!(search_location(" \t "), "/");
    assert_eq!(search_location("buenos dias"), "/translate/buenos%20dias");
    assert_eq!(search_location("común"), "/translate/com%C3%BAn");
    assert_eq!(search_location("a/b?c#d"), "/translate/a%2Fb%3Fc%23d");
    assert!(search_location("buenos dias").starts_with("/translate/buenos"));
}

#[test]
fn long_terms_are_refused() {
    let long = "a".repeat(MAX_TERM_LENGTH + 1);
    let exact = "a".repeat(MAX_TERM_LENGTH);
    assert!(term_too_long(&long));
    assert!(!term_too_long(&exact));
    assert!(term_too_long(&"é".repeat(51)));
    let page = too_long_page();
    assert_eq!(page.message, "Search input is too long.");
    assert_eq!(page.search.value, "");
    assert!(page.search.autofocus);
    let blank = blank_search();
    assert_eq!(blank.value, "");
    assert!(blank.autofocus);
}

#[test]
fn translate_page_for_a_found_term() {
    let examples = vec![example("Let's <em>eat</em>."), example("The <em>lunch</em> hour."), example("I <em>eat</em>.")];
    let query = TranslateQuery { filter: Some("Eat".to_string()), lang_from: None };
    match translate_page("comer", Ok(term_with_examples(examples)), query) {
        Page::Results(p) => {
            assert_eq!(p.search.value, "comer");
            assert!(!p.search.autofocus);
            assert_eq!(p.filter_tags[0].label, "eat");
            assert_eq!(p.filter_tags[0].count, 2);
            assert_eq!(p.filtered_examples.len(), 2);
            assert_eq!(p.active_filter.as_deref(), Some("Eat"));
            assert!(p.active_lang_from.is_none());
            assert_eq!(p.term.examples.len(), 3);
        }
        Page::Error(_) => panic!("expected results"),
    }
    let query = TranslateQuery { filter: None, lang_from: Some("en".to_string()) };
    match translate_page("comer", Ok(term_with_examples(vec![example("a")])), query) {
        Page::Results(p) => {
            assert_eq!(p.filtered_examples.len(), 1);
            assert_eq!(p.active_lang_from.as_deref(), Some("en"));
            assert!(p.filter_tags.is_empty());
        }
        Page::Error(_) => panic!("expected results"),
    }
}

#[test]
fn translate_page_for_errors() {
    let query = || TranslateQuery { filter: None, lang_from: None };
    match translate_page("xyznotaword", Err(SdictError::NotFound("xyznotaword".to_string())), query()) {
        Page::Error(p) => {
            assert_eq!(p.message, "No results for 'xyznotaword'.");
            assert_eq!(p.search.value, "xyznotaword");
            assert!(p.search.autofocus);
        }
        Page::Results(_) => panic!("expected an error page"),
    }
    match translate_page("broken", Err(SdictError::Fetch("HTTP status 500".to_string())), query()) {
        Page::Error(p) => {
            assert!(p.message.contains("Could not look up this term"));
            assert_eq!(p.search.value, "broken");
        }
        Page::Results(_) => panic!("expected an error page"),
    }
    match translate_page("x", Err(SdictError::Parse("bad".to_string())), query()) {
        Page::Error(p) => assert_eq!(p.message, "Could not look up this term. Please try again."),
        Page::Results(_) => panic!("expected an error page"),
    }
}

#[test]
fn html_responses_are_recognised() {
    assert!(is_html_content_type(Some("text/html; charset=utf-8")));
    assert!(!is_html_content_type(Some("text/css")));
    assert!(!is_html_content_type(None));
}

#[test]
fn minify_page_shrinks_html() {
    let page = "<html>\n  <body>\n    <p>  hola   mundo  </p>\n  </body>\n</html>\n";
    let out = minify_page(page);
    assert!(out.len() < page.len());
    let text = String::from_utf8(out).unwrap();
    assert!(text.contains("hola mundo"));
}

#[test]
fn minify_page_minifies_css() {
    let css = "<style> p { color : red ; } </style><p style=\"color : red ;\">común</p>";
    let minified = String::from_utf8(minify_page(css)).unwrap();
    assert!(minified.len() < css.len());
    assert!(minified.contains("color:red"));
    assert!(minified.contains("común"));
}
