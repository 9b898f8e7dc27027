use sdict::json::{JsonMember, JsonValue};
use sdict::spanishdict::{
    extract_filter_tags, extract_sd_data, filter_examples, parse_definitions, parse_examples,
    CorpusExample, SdictError,
};

fn s(text: &str) -> JsonValue {
    JsonValue::Str(text.to_string())
}

fn arr(items: Vec<JsonValue>) -> JsonValue {
    JsonValue::Array(items)
}

fn obj(members: Vec<(&str, JsonValue)>) -> JsonValue {
    JsonValue::Object(
        members
            .into_iter()
            .map(|(key, value)| JsonMember { key: key.to_string(), value })
            .collect(),
    )
}

fn neodict(items: Vec<JsonValue>) -> JsonValue {
    obj(vec![(
        "sdDictionaryResultsProps",
        obj(vec![("entry", obj(vec![("neodict", arr(items))]))]),
    )])
}

#[test]
fn test_extract_sd_data_missing_script() {
    let html = "<html><body><p>No data here</p></body></html>";
    let result = extract_sd_data(html);
    assert!(result.is_err());
    match result {
        Err(SdictError::Parse(msg)) => {
            assert!(msg.contains("No SD_COMPONENT_DATA"));
        }
        _ => panic!("Expected ParseError"),
    }
}

#[test]
fn test_extract_sd_data_malformed_json() {
    let html = r#"<html><body><script>window.SD_COMPONENT_DATA = {not valid json};</script></body></html>"#;
    let result = extract_sd_data(html);
    assert!(result.is_err());
    match result {
        Err(SdictError::Parse(msg)) => {
            assert!(msg.contains("Invalid JSON"));
        }
        _ => panic!("Expected ParseError"),
    }
}

#[test]
fn test_parse_definitions_empty_neodict() {
    let data = neodict(vec![]);
    let parsed = parse_definitions(&data);
    assert!(parsed.quick_definition.is_none());
    assert!(parsed.headword_groups.is_empty());
}

#[test]
fn test_parse_definitions_missing_fields() {
    let data = neodict(vec![obj(vec![(
        "posGroups",
        arr(vec![obj(vec![(
            "senses",
            arr(vec![obj(vec![(
                "translations",
                arr(vec![obj(vec![("translation", s("to eat"))])]),
            )])]),
        )])]),
    )])]);
    let parsed = parse_definitions(&data);
    assert_eq!(parsed.headword_groups.len(), 1);
    let translation = &parsed.headword_groups[0].pos_groups[0].senses[0].translations[0];
    assert_eq!(translation.text, "to eat");
    assert!(translation.examples.is_empty());
}

#[test]
fn test_parse_definitions_with_context() {
    let data = neodict(vec![obj(vec![(
        "posGroups",
        arr(vec![obj(vec![(
            "senses",
            arr(vec![obj(vec![
                ("contextEn", s("food")),
                (
                    "translations",
                    arr(vec![obj(vec![
                        ("translation", s("to eat")),
                        (
                            "examples",
                            arr(vec![obj(vec![
                                ("textEs", s("Vamos a comer.")),
                                ("textEn", s("Let's eat.")),
                            ])]),
                        ),
                    ])]),
                ),
            ])]),
        )])]),
    )])]);
    let parsed = parse_definitions(&data);
    assert_eq!(parsed.headword_groups.len(), 1);
    let sense = &parsed.headword_groups[0].pos_groups[0].senses[0];
    assert_eq!(sense.context, "food");
    let translation = &sense.translations[0];
    assert_eq!(translation.text, "to eat");
    assert_eq!(translation.examples.len(), 1);
    assert_eq!(translation.examples[0].spanish, "Vamos a comer.");
    assert_eq!(translation.examples[0].english, "Let's eat.");
}

#[test]
fn test_extract_filter_tags() {
    let examples = vec![
        CorpusExample {
            spanish: "Vamos a <em>comer</em>.".to_string(),
            english: "Let's <em>eat</em>.".to_string(),
        },
        CorpusExample {
            spanish: "La hora de <em>comer</em>.".to_string(),
            english: "The <em>lunch</em> hour.".to_string(),
        },
        CorpusExample {
            spanish: "Quiero <em>comer</em> algo.".to_string(),
            english: "I want to <em>eat</em> something.".to_string(),
        },
    ];
    let tags = extract_filter_tags(&examples);
    assert_eq!(tags[0].label, "eat");
    assert_eq!(tags[0].count, 2);
    assert_eq!(tags[1].label, "lunch");
    assert_eq!(tags[1].count, 1);
}

#[test]
fn test_filter_examples() {
    let examples = vec![
        CorpusExample {
            spanish: "Vamos a <em>comer</em>.".to_string(),
            english: "Let's <em>eat</em>.".to_string(),
        },
        CorpusExample {
            spanish: "La hora de <em>comer</em>.".to_string(),
            english: "The <em>lunch</em> hour.".to_string(),
        },
    ];
    let filtered = filter_examples(&examples, "eat");
    assert_eq!(filtered.len(), 1);
    assert!(filtered[0].english.contains("eat"));

    let filtered = filter_examples(&examples, "lunch");
    assert_eq!(filtered.len(), 1);
    assert!(filtered[0].english.contains("lunch"));

    let filtered = filter_examples(&examples, "nonexistent");
    assert!(filtered.is_empty());
}

#[test]
fn test_parse_examples_missing_key() {
    let data = obj(vec![]);
    let examples = parse_examples(&data);
    assert!(examples.is_empty());
}
