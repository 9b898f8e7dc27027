use sdict::json::{JsonMember, JsonValue};
use sdict::spanishdict::{
    assemble_term, definitions_url, examples_url, extract_filter_tags, extract_sd_data,
    extract_string_array, filter_examples, parse_definitions, parse_examples, parse_examples_for,
    read_definitions,
    sanitize_html, search_language, CorpusExample, SdictError,
};

fn s(text: &str) -> JsonValue {
    JsonValue::Str(text.to_string())
}

fn arr(items: Vec<JsonValue>) -> JsonValue {
    JsonValue::Array(items)
}

fn obj(members: Vec<(&str, JsonValue)>) -> JsonValue {
    JsonValue::Object(
        members
            .into_iter()
            .map(|(key, value)| JsonMember { key: key.to_string(), value })
            .collect(),
    )
}

fn example(spanish: &str, english: &str) -> CorpusExample {
    CorpusExample { spanish: spanish.to_string(), english: english.to_string() }
}

fn sense(members: Vec<(&str, JsonValue)>) -> JsonValue {
    obj(members)
}

fn one_sense_data(sense_value: JsonValue, extra: Vec<(&str, JsonValue)>) -> JsonValue {
    let mut members = vec![(
        "sdDictionaryResultsProps",
        obj(vec![(
            "entry",
            obj(vec![(
                "neodict",
                arr(vec![obj(vec![
                    ("subheadword", s("comer")),
                    (
                        "posGroups",
                        arr(vec![obj(vec![
                            ("pos", obj(vec![("nameEn", s("transitive verb"))])),
                            ("senses", arr(vec![sense_value])),
                        ])]),
                    ),
                ])]),
            )]),
        )]),
    )];
    members.extend(extra);
    obj(members)
}

fn header(members: Vec<(&str, JsonValue)>) -> (&'static str, JsonValue) {
    (
        "resultCardHeaderProps",
        obj(vec![("headwordAndQuickdefsProps", obj(members))]),
    )
}

fn display(text: &str) -> JsonValue {
    obj(vec![("displayText", s(text))])
}

#[test]
fn extract_sd_data_reads_the_first_marked_script() {
    let html = r#"<html><head><script>var x = 1;</script></head><body>
        <script>window.SD_COMPONENT_DATA = {"a": 7, "b": [true, null, "x"], "c": -3};</script>
        <script>window.SD_COMPONENT_DATA = {"a": 8};</script></body></html>"#;
    let data = extract_sd_data(html).unwrap();
    match data.get("a") {
        Some(JsonValue::Number(Some(7))) => {}
        _ => panic!("expected a = 7"),
    }
    match data.get("b") {
        Some(JsonValue::Array(items)) => {
            assert_eq!(items.len(), 3);
            assert!(matches!(items[0], JsonValue::Bool(true)));
            assert!(matches!(items[1], JsonValue::Null));
            assert!(matches!(&items[2], JsonValue::Str(t) if t == "x"));
        }
        _ => panic!("expected an array"),
    }
    assert!(matches!(data.get("c"), Some(JsonValue::Number(None))));
    assert!(data.get("d").is_none());
}

#[test]
fn extract_sd_data_skips_a_marker_without_an_object() {
    let html = r#"<script>SD_COMPONENT_DATA is coming</script>"#;
    match extract_sd_data(html) {
        Err(SdictError::Parse(msg)) => assert_eq!(msg, "No SD_COMPONENT_DATA found in HTML"),
        _ => panic!("expected a parse error"),
    }
}

#[test]
fn extract_string_array_keeps_only_strings() {
    let value = obj(vec![("regionsDisplay", arr(vec![s("Spain"), JsonValue::Null, s("Mexico")]))]);
    assert_eq!(extract_string_array(&value, "regionsDisplay"), vec!["Spain", "Mexico"]);
    assert!(extract_string_array(&value, "other").is_empty());
    assert!(extract_string_array(&s("Spain"), "regionsDisplay").is_empty());
}

#[test]
fn parse_definitions_reads_every_field() {
    let sense_value = sense(vec![
        ("idx", JsonValue::Number(Some(4294967298))),
        ("contextEn", s("food")),
        ("regionsDisplay", arr(vec![s("Spain")])),
        ("registerLabelsDisplay", arr(vec![s("colloquial")])),
        (
            "translations",
            arr(vec![
                obj(vec![("translation", s("to eat"))]),
                obj(vec![("translation", s(""))]),
                obj(vec![
                    ("translation", s("")),
                    ("examples", arr(vec![obj(vec![("textEs", s("Come.")), ("textEn", s("Eat."))])])),
                ]),
            ]),
        ),
    ]);
    let data = one_sense_data(
        sense_value,
        vec![
            header(vec![("headword", display("comer")), ("quickdef2", display("to have lunch"))]),
            ("langFrom", s("es")),
            ("hasBothLangs", JsonValue::Bool(true)),
        ],
    );
    let parsed = parse_definitions(&data);
    assert_eq!(parsed.headword.as_deref(), Some("comer"));
    assert_eq!(parsed.quick_definition.as_deref(), Some("to have lunch"));
    assert_eq!(parsed.lang_from.as_deref(), Some("es"));
    assert!(parsed.has_both_langs);
    let group = &parsed.headword_groups[0];
    assert_eq!(group.subheadword, "comer");
    assert_eq!(group.pos_groups[0].pos_label, "transitive verb");
    let sense = &group.pos_groups[0].senses[0];
    assert_eq!(sense.index, 2);
    assert_eq!(sense.regions, vec!["Spain"]);
    assert_eq!(sense.register_labels, vec!["colloquial"]);
    assert_eq!(sense.translations.len(), 2);
    assert_eq!(sense.translations[1].text, "");
    assert_eq!(sense.translations[1].examples[0].english, "Eat.");
}

#[test]
fn parse_definitions_quick_definition_falls_back() {
    let with_both = one_sense_data(
        sense(vec![("translations", arr(vec![obj(vec![("translation", s("to eat"))])]))]),
        vec![header(vec![("quickdef1", display("to eat up")), ("quickdef2", display("to lunch"))])],
    );
    assert_eq!(parse_definitions(&with_both).quick_definition.as_deref(), Some("to eat up"));
    let without = one_sense_data(
        sense(vec![("translations", arr(vec![obj(vec![("translation", s("to eat"))])]))]),
        vec![],
    );
    let parsed = parse_definitions(&without);
    assert_eq!(parsed.quick_definition.as_deref(), Some("to eat"));
    assert!(parsed.headword.is_none());
    assert!(parsed.lang_from.is_none());
    assert!(!parsed.has_both_langs);
}

#[test]
fn parse_definitions_drops_empty_groups() {
    let data = one_sense_data(
        sense(vec![(
            "translations",
            arr(vec![obj(vec![
                ("translation", s("")),
                ("examples", arr(vec![obj(vec![("textEs", s("solo"))])])),
            ])]),
        )]),
        vec![],
    );
    let parsed = parse_definitions(&data);
    assert!(parsed.headword_groups.is_empty());
    assert!(parsed.quick_definition.is_none());
}

#[test]
fn parse_examples_sanitizes_and_skips_incomplete_sentences() {
    let sentences = arr(vec![
        obj(vec![
            ("source", s("Vamos a <em>comer</em> <b>ya</b>.")),
            ("target", s("Let's <em>eat</em><script>x()</script> now.")),
        ]),
        obj(vec![("source", s("Sin traducción")), ("target", s(""))]),
        obj(vec![("target", s("No source"))]),
    ]);
    let data = obj(vec![(
        "explorationResponseFromServerEs",
        obj(vec![("data", obj(vec![("data", obj(vec![("sentences", sentences)]))]))]),
    )]);
    let examples = parse_examples(&data);
    assert_eq!(examples.len(), 1);
    assert_eq!(examples[0].spanish, "Vamos a <em>comer</em> ya.");
    assert_eq!(examples[0].english, "Let's <em>eat</em> now.");
}

#[test]
fn sanitize_html_keeps_only_em() {
    assert_eq!(sanitize_html("<p><em>hola</em> <a href=\"x\">mundo</a></p>"), "<em>hola</em> mundo");
}

#[test]
fn extract_filter_tags_counts_each_example_once_and_ignores_case() {
    let examples = vec![
        example("a", "<em>Eat</em> and <em>eat</em>"),
        example("b", "<em>EAT</em>"),
        example("c", "no highlight"),
    ];
    let tags = extract_filter_tags(&examples);
    assert_eq!(tags.len(), 1);
    assert_eq!(tags[0].label, "eat");
    assert_eq!(tags[0].count, 2);
}

#[test]
fn extract_filter_tags_keeps_the_five_largest() {
    let examples = vec![
        example("", "<em>a</em> <em>b</em> <em>c</em> <em>d</em> <em>e</em> <em>f</em>"),
        example("", "<em>f</em> <em>e</em> <em>d</em> <em>c</em> <em>b</em>"),
        example("", "<em>b</em> <em>c</em> <em>d</em> <em>e</em>"),
        example("", "<em>c</em> <em>d</em> <em>e</em>"),
        example("", "<em>d</em> <em>e</em>"),
        example("", "<em>e</em>"),
    ];
    let tags = extract_filter_tags(&examples);
    let labels: Vec<&str> = tags.iter().map(|t| t.label.as_str()).collect();
    let counts: Vec<usize> = tags.iter().map(|t| t.count).collect();
    assert_eq!(labels, vec!["e", "d", "c", "b", "f"]);
    assert_eq!(counts, vec![6, 5, 4, 3, 2]);
    assert!(extract_filter_tags(&[]).is_empty());
}

#[test]
fn filtering_by_a_tag_keeps_as_many_examples_as_it_counts() {
    let examples = vec![
        example("", "<em>eat</em> <em>lunch</em>"),
        example("", "<em>Lunch</em>"),
        example("", "<em>dine</em>"),
        example("", "<em>eat</em>"),
    ];
    for tag in extract_filter_tags(&examples) {
        assert_eq!(filter_examples(&examples, &tag.label).len(), tag.count);
    }
    let upper = filter_examples(&examples, "LUNCH");
    assert_eq!(upper.len(), 2);
    assert_eq!(upper[1].english, "<em>Lunch</em>");
}

#[test]
fn error_messages() {
    assert_eq!(SdictError::Fetch("timeout".to_string()).message(), "Failed to fetch from SpanishDict: timeout");
    assert_eq!(SdictError::Parse("bad".to_string()).message(), "Failed to parse SpanishDict data: bad");
    assert_eq!(SdictError::NotFound("xyz".to_string()).message(), "No results for 'xyz'.");
}

#[test]
fn lookup_urls() {
    assert_eq!(definitions_url("http://h", "comer", None), "http://h/translate/comer");
    assert_eq!(definitions_url("http://h", "eat", Some("en")), "http://h/translate/eat?langFrom=en");
    assert_eq!(examples_url("http://h", "comer", "es"), "http://h/examples/comer?lang=es");
}

#[test]
fn read_definitions_outcomes() {
    let empty = r#"<html><body><script>window.SD_COMPONENT_DATA = {"sdDictionaryResultsProps":{"entry":{"neodict":[]}},"resultCardHeaderProps":{}};</script></body></html>"#;
    match read_definitions("xyznotaword", Ok(empty.to_string())) {
        Err(SdictError::NotFound(t)) => assert_eq!(t, "xyznotaword"),
        _ => panic!("expected NotFound"),
    }
    match read_definitions("broken", Err(SdictError::Fetch("500".to_string()))) {
        Err(SdictError::Fetch(m)) => assert_eq!(m, "500"),
        _ => panic!("expected the fetch error"),
    }
    assert!(matches!(read_definitions("x", Ok("<html></html>".to_string())), Err(SdictError::Parse(_))));
    let found = r#"<script>window.SD_COMPONENT_DATA = {"sdDictionaryResultsProps":{"entry":{"neodict":[{"posGroups":[{"senses":[{"translations":[{"translation":"common","examples":[]}]}]}]}]}},"resultCardHeaderProps":{},"langFrom":"en"};</script>"#;
    let parsed = read_definitions("común", Ok(found.to_string())).unwrap();
    assert_eq!(parsed.headword_groups[0].pos_groups[0].senses[0].translations[0].text, "common");
    assert_eq!(search_language(&parsed), "en");
}

#[test]
fn assemble_term_without_examples() {
    let found = r#"<script>window.SD_COMPONENT_DATA = {"sdDictionaryResultsProps":{"entry":{"neodict":[{"posGroups":[{"senses":[{"translations":[{"translation":"good morning"}]}]}]}]}}};</script>"#;
    let parsed = read_definitions("buenos días", Ok(found.to_string())).unwrap();
    let term = assemble_term("buenos días", parsed, Ok("<html></html>".to_string()));
    assert_eq!(term.query, "buenos días");
    assert_eq!(term.headword, "buenos días");
    assert_eq!(term.lang_from, "es");
    assert_eq!(term.quick_definition.as_deref(), Some("good morning"));
    assert!(term.examples.is_empty());
    assert!(!term.has_both_langs);
}

#[test]
fn assemble_term_with_examples() {
    let found = r#"<script>window.SD_COMPONENT_DATA = {"sdDictionaryResultsProps":{"entry":{"neodict":[{"posGroups":[{"senses":[{"translations":[{"translation":"to eat"}]}]}]}]}},"resultCardHeaderProps":{"headwordAndQuickdefsProps":{"headword":{"displayText":"comer"}}}};</script>"#;
    let page = r#"<script>window.SD_COMPONENT_DATA = {"explorationResponseFromServerEs":{"data":{"data":{"sentences":[{"source":"Vamos a <em>comer</em>.","target":"Let's <em>eat</em>."}]}}}};</script>"#;
    let parsed = read_definitions("comer", Ok(found.to_string())).unwrap();
    let term = assemble_term("comer", parsed, Ok(page.to_string()));
    assert_eq!(term.headword, "comer");
    assert_eq!(term.examples.len(), 1);
    assert_eq!(term.examples[0].english, "Let's <em>eat</em>.");
    let failed = read_definitions("comer", Ok(found.to_string())).unwrap();
    let term = assemble_term("comer", failed, Err(SdictError::Fetch("down".to_string())));
    assert!(term.examples.is_empty());
}

#[test]
fn filtering_twice_gives_what_filtering_once_gives() {
    let examples = vec![
        example("1", "<em>eat</em>"),
        example("2", "<em>lunch</em>"),
        example("3", "I <em>EAT</em> now"),
    ];
    let once = filter_examples(&examples, "eat");
    let twice = filter_examples(&once, "eat");
    assert_eq!(once.len(), 2);
    assert_eq!(twice.len(), 2);
    assert_eq!(twice[0].spanish, "1");
    assert_eq!(twice[1].spanish, "3");
}

#[test]
fn json_lookup_takes_the_first_member() {
    let value = obj(vec![("k", s("first")), ("k", s("second"))]);
    assert!(matches!(value.get("k"), Some(JsonValue::Str(t)) if t == "first"));
    assert!(s("k").get("k").is_none());
    assert_eq!(JsonValue::Number(Some(3)).as_u64(), Some(3));
    assert_eq!(JsonValue::Bool(false).as_bool(), Some(false));
    assert_eq!(s("x").as_bool(), None);
}

#[test]
fn filter_examples_tests_containment_of_the_tag() {
    let examples = vec![example("1", "<em>x <em>eat</em></em>"), example("2", "<EM>Eat</EM> it")];
    let kept = filter_examples(&examples, "eat");
    assert_eq!(kept.len(), 2);
    let tags = extract_filter_tags(&examples);
    assert_eq!(tags.len(), 1);
    assert_eq!(tags[0].label, "x <em>eat");
    assert_eq!(filter_examples(&examples, "eat</em></em").len(), 0);
}

fn english_examples_data() -> JsonValue {
    obj(vec![(
        "explorationResponseFromServerEn",
        obj(vec![(
            "data",
            obj(vec![(
                "data",
                obj(vec![(
                    "sentences",
                    arr(vec![obj(vec![("source", s("to eat")), ("target", s("comer"))])]),
                )]),
            )]),
        )]),
    )])
}

#[test]
fn parse_examples_selects_the_key_by_language() {
    let data = english_examples_data();
    let en = parse_examples_for(&data, "en");
    assert_eq!(en.len(), 1);
    assert_eq!(en[0].spanish, "to eat");
    assert_eq!(en[0].english, "comer");
    assert!(parse_examples_for(&data, "es").is_empty());
    assert!(parse_examples_for(&data, "fr").is_empty());
    assert!(parse_examples(&data).is_empty());
}

#[test]
fn assemble_term_reads_the_examples_of_the_search_language() {
    let found = r#"<script>window.SD_COMPONENT_DATA = {"sdDictionaryResultsProps":{"entry":{"neodict":[{"posGroups":[{"senses":[{"translations":[{"translation":"comer"}]}]}]}]}},"langFrom":"en"};</script>"#;
    let page = r#"<script>window.SD_COMPONENT_DATA = {"explorationResponseFromServerEn":{"data":{"data":{"sentences":[{"source":"I <em>eat</em>.","target":"Yo <em>como</em>."}]}}},"explorationResponseFromServerEs":{"data":{"data":{"sentences":[]}}}};</script>"#;
    let parsed = read_definitions("eat", Ok(found.to_string())).unwrap();
    let term = assemble_term("eat", parsed, Ok(page.to_string()));
    assert_eq!(term.lang_from, "en");
    assert_eq!(term.examples.len(), 1);
    assert_eq!(term.examples[0].english, "Yo <em>como</em>.");
    assert_eq!(extract_filter_tags(&term.examples)[0].label, "como");
}
