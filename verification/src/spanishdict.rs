use vstd::prelude::*;

use crate::json::{
    get_in, get_opt, items, items_of, json_parsed, parse_json, str_of, str_or_empty, string_of,
    string_or_empty, u64_of, bool_of, JsonValue, spec_get,
};
use crate::sequences::{
    lemma_filter_map_len, lemma_filter_map_picks, lemma_filter_selects, lemma_picks_nonempty, picks,
    selects,
};
use crate::markup::{clean_html, html_cleaned, select_texts, selected_texts};
use crate::text::{
    contains, has_substring, lowercase, lowercase_of, regex_captures, regex_group1, string_views,
};

verus! {

// ---------------------------------------------------------------------------
// Errors
// ---------------------------------------------------------------------------

/// Why a lookup failed.
#[derive(Debug, Clone)]
pub enum SdictError {
    /// The page could not be fetched; the text says why.
    Fetch(String),
    /// The page did not hold the data expected.
    Parse(String),
    /// The term has no entry.
    NotFound(String),
}

// ---------------------------------------------------------------------------
// Data types
// ---------------------------------------------------------------------------

/// The result of a lookup.
#[derive(Debug, Clone)]
pub struct Term {
    pub query: String,
    pub headword: String,
    pub quick_definition: Option<String>,
    pub headword_groups: Vec<HeadwordGroup>,
    pub examples: Vec<CorpusExample>,
    pub lang_from: String,
    pub has_both_langs: bool,
}

#[derive(Debug, Clone)]
pub struct HeadwordGroup {
    pub subheadword: String,
    pub pos_groups: Vec<PosGroup>,
}

#[derive(Debug, Clone)]
pub struct PosGroup {
    pub pos_label: String,
    pub senses: Vec<Sense>,
}

#[derive(Debug, Clone)]
pub struct Sense {
    pub index: u32,
    pub context: String,
    pub regions: Vec<String>,
    pub register_labels: Vec<String>,
    pub translations: Vec<Translation>,
}

#[derive(Debug, Clone)]
pub struct Translation {
    pub text: String,
    pub examples: Vec<ExampleSentence>,
}

#[derive(Debug, Clone)]
pub struct ExampleSentence {
    pub spanish: String,
    pub english: String,
}

/// An example from the corpus (separate from per-definition examples).
/// `spanish` is the sentence in the language of the search term (Spanish for a Spanish term),
/// `english` its translation (English for a Spanish term).
/// Both may contain `<em>` tags for highlighting the search term.
/// All other HTML tags are stripped at parse time.
#[derive(Debug, Clone)]
pub struct CorpusExample {
    pub spanish: String,
    pub english: String,
}

#[derive(Debug, Clone)]
pub struct ParsedDefinitions {
    pub quick_definition: Option<String>,
    pub headword: Option<String>,
    pub headword_groups: Vec<HeadwordGroup>,
    /// Language of the search term: "es" or "en"
    pub lang_from: Option<String>,
    /// Whether the term has definitions in both language directions
    pub has_both_langs: bool,
}

#[derive(Debug, Clone)]
pub struct FilterTag {
    pub label: String,
    pub count: usize,
}

// ---------------------------------------------------------------------------
// Views
// ---------------------------------------------------------------------------

/// The view of an optional string.
pub open spec fn opt_text(o: Option<String>) -> Option<Seq<char>> {
    match o {
        Some(s) => Some(s@),
        None => None,
    }
}

pub struct ExampleSentenceView {
    pub spanish: Seq<char>,
    pub english: Seq<char>,
}

impl View for ExampleSentence {
    type V = ExampleSentenceView;

    open spec fn view(&self) -> ExampleSentenceView {
        ExampleSentenceView { spanish: self.spanish@, english: self.english@ }
    }
}

pub struct TranslationView {
    pub text: Seq<char>,
    pub examples: Seq<ExampleSentenceView>,
}

impl View for Translation {
    type V = TranslationView;

    open spec fn view(&self) -> TranslationView {
        TranslationView {
            text: self.text@,
            examples: self.examples@.map_values(|e: ExampleSentence| e@),
        }
    }
}

pub struct SenseView {
    pub index: u32,
    pub context: Seq<char>,
    pub regions: Seq<Seq<char>>,
    pub register_labels: Seq<Seq<char>>,
    pub translations: Seq<TranslationView>,
}

impl View for Sense {
    type V = SenseView;

    open spec fn view(&self) -> SenseView {
        SenseView {
            index: self.index,
            context: self.context@,
            regions: string_views(self.regions@),
            register_labels: string_views(self.register_labels@),
            translations: self.translations@.map_values(|t: Translation| t@),
        }
    }
}

pub struct PosGroupView {
    pub pos_label: Seq<char>,
    pub senses: Seq<SenseView>,
}

impl View for PosGroup {
    type V = PosGroupView;

    open spec fn view(&self) -> PosGroupView {
        PosGroupView { pos_label: self.pos_label@, senses: self.senses@.map_values(|s: Sense| s@) }
    }
}

pub struct HeadwordGroupView {
    pub subheadword: Seq<char>,
    pub pos_groups: Seq<PosGroupView>,
}

impl View for HeadwordGroup {
    type V = HeadwordGroupView;

    open spec fn view(&self) -> HeadwordGroupView {
        HeadwordGroupView {
            subheadword: self.subheadword@,
            pos_groups: self.pos_groups@.map_values(|p: PosGroup| p@),
        }
    }
}

/// Views of a sequence of headword groups.
pub open spec fn group_views(v: Seq<HeadwordGroup>) -> Seq<HeadwordGroupView> {
    v.map_values(|g: HeadwordGroup| g@)
}

pub struct ParsedDefinitionsView {
    pub quick_definition: Option<Seq<char>>,
    pub headword: Option<Seq<char>>,
    pub headword_groups: Seq<HeadwordGroupView>,
    pub lang_from: Option<Seq<char>>,
    pub has_both_langs: bool,
}

impl View for ParsedDefinitions {
    type V = ParsedDefinitionsView;

    open spec fn view(&self) -> ParsedDefinitionsView {
        ParsedDefinitionsView {
            quick_definition: opt_text(self.quick_definition),
            headword: opt_text(self.headword),
            headword_groups: group_views(self.headword_groups@),
            lang_from: opt_text(self.lang_from),
            has_both_langs: self.has_both_langs,
        }
    }
}

pub struct CorpusExampleView {
    pub spanish: Seq<char>,
    pub english: Seq<char>,
}

impl View for CorpusExample {
    type V = CorpusExampleView;

    open spec fn view(&self) -> CorpusExampleView {
        CorpusExampleView { spanish: self.spanish@, english: self.english@ }
    }
}

/// Views of a sequence of corpus examples.
pub open spec fn example_views(v: Seq<CorpusExample>) -> Seq<CorpusExampleView> {
    v.map_values(|e: CorpusExample| e@)
}

// ---------------------------------------------------------------------------
// Sequence lemmas used by the loops below
// ---------------------------------------------------------------------------

proof fn lemma_filter_map_step<A, B>(s: Seq<A>, f: spec_fn(A) -> Option<B>, i: int)
    requires
        0 <= i < s.len(),
    ensures
        s.take(i + 1).filter_map(f) == (match f(s[i]) {
            Some(b) => s.take(i).filter_map(f).push(b),
            None => s.take(i).filter_map(f),
        }),
{
    s.lemma_filter_map_take_succ(f, i);
    assert(s.take(i).filter_map(f) + seq![] =~= s.take(i).filter_map(f));
    match f(s[i]) {
        Some(b) => {
            assert(s.take(i).filter_map(f) + seq![b] =~= s.take(i).filter_map(f).push(b));
        },
        None => {},
    }
}

proof fn lemma_map_push<A, B>(s: Seq<A>, a: A, f: spec_fn(A) -> B)
    ensures
        s.push(a).map_values(f) == s.map_values(f).push(f(a)),
{
    assert(s.push(a).map_values(f) =~= s.map_values(f).push(f(a)));
}

// ---------------------------------------------------------------------------
// Definition parsing
// ---------------------------------------------------------------------------

/// The texts of the string items of the array under `key`.
pub open spec fn string_items(value: JsonValue, key: Seq<char>) -> Seq<Seq<char>> {
    items_of(spec_get(value, key)).filter_map(|v: JsonValue| str_of(Some(v)))
}

/// Helper to extract an array of strings from a JSON value
/// Example: {"regionsDisplay": ["Spain", "Mexico"]} -> vec!["Spain", "Mexico"]
pub fn extract_string_array(value: &JsonValue, key: &str) -> (r: Vec<String>)
    ensures
        string_views(r@) == string_items(*value, key@),
{
    let arr = items(value.get(key));
    let ghost f = |v: JsonValue| str_of(Some(v));
    let mut out: Vec<String> = Vec::new();
    for i in 0..arr.len()
        invariant
            arr@ == items_of(spec_get(*value, key@)),
            f == (|v: JsonValue| str_of(Some(v))),
            string_views(out@) == arr@.take(i as int).filter_map(f),
    {
        proof {
            lemma_filter_map_step(arr@, f, i as int);
        }
        match string_of(Some(&arr[i])) {
            Some(s) => {
                proof {
                    lemma_map_push(out@, s, |s: String| s@);
                }
                out.push(s);
            },
            None => {},
        }
    }
    assert(arr@.take(arr@.len() as int) =~= arr@);
    out
}


/// An example sentence of a translation: kept when both of its texts are non-empty.
pub open spec fn example_sentence_of(ex: JsonValue) -> Option<ExampleSentenceView> {
    let spanish = str_or_empty(spec_get(ex, "textEs"@));
    let english = str_or_empty(spec_get(ex, "textEn"@));
    if spanish.len() > 0 && english.len() > 0 {
        Some(ExampleSentenceView { spanish, english })
    } else {
        None
    }
}

/// A translation: kept when its text is non-empty or it has an example sentence.
pub open spec fn translation_of(tv: JsonValue) -> Option<TranslationView> {
    let text = str_or_empty(spec_get(tv, "translation"@));
    let examples = items_of(spec_get(tv, "examples"@)).filter_map(
        |v: JsonValue| example_sentence_of(v),
    );
    if text.len() > 0 || examples.len() > 0 {
        Some(TranslationView { text, examples })
    } else {
        None
    }
}

/// The index of a sense: its `idx` number taken modulo 2^32, or 0.
pub open spec fn sense_index_of(sv: JsonValue) -> u32 {
    match u64_of(spec_get(sv, "idx"@)) {
        Some(n) => (n % 0x1_0000_0000) as u32,
        None => 0,
    }
}

/// A sense: kept when it has a translation.
pub open spec fn sense_of(sv: JsonValue) -> Option<SenseView> {
    let translations = items_of(spec_get(sv, "translations"@)).filter_map(
        |v: JsonValue| translation_of(v),
    );
    if translations.len() > 0 {
        Some(
            SenseView {
                index: sense_index_of(sv),
                context: str_or_empty(spec_get(sv, "contextEn"@)),
                regions: string_items(sv, "regionsDisplay"@),
                register_labels: string_items(sv, "registerLabelsDisplay"@),
                translations,
            },
        )
    } else {
        None
    }
}

/// A part-of-speech group: kept when it has a sense.
pub open spec fn pos_group_of(gv: JsonValue) -> Option<PosGroupView> {
    let senses = items_of(spec_get(gv, "senses"@)).filter_map(|v: JsonValue| sense_of(v));
    if senses.len() > 0 {
        Some(
            PosGroupView {
                pos_label: str_or_empty(get_opt(spec_get(gv, "pos"@), "nameEn"@)),
                senses,
            },
        )
    } else {
        None
    }
}

/// A headword group: kept when it has a part-of-speech group.
pub open spec fn headword_group_of(item: JsonValue) -> Option<HeadwordGroupView> {
    let pos_groups = items_of(spec_get(item, "posGroups"@)).filter_map(
        |v: JsonValue| pos_group_of(v),
    );
    if pos_groups.len() > 0 {
        Some(
            HeadwordGroupView {
                subheadword: str_or_empty(spec_get(item, "subheadword"@)),
                pos_groups,
            },
        )
    } else {
        None
    }
}

fn parse_example_sentence(ex: &JsonValue) -> (r: Option<ExampleSentence>)
    ensures
        r is Some <==> example_sentence_of(*ex) is Some,
        r matches Some(e) ==> example_sentence_of(*ex) == Some(e@),
{
    let spanish = string_or_empty(ex.get("textEs"));
    let english = string_or_empty(ex.get("textEn"));
    if !spanish.as_str().is_empty() && !english.as_str().is_empty() {
        Some(ExampleSentence { spanish, english })
    } else {
        None
    }
}

fn parse_translation(tv: &JsonValue) -> (r: Option<Translation>)
    ensures
        r is Some <==> translation_of(*tv) is Some,
        r matches Some(t) ==> translation_of(*tv) == Some(t@),
{
    let text = string_or_empty(tv.get("translation"));
    let arr = items(tv.get("examples"));
    let ghost f = |v: JsonValue| example_sentence_of(v);
    let mut examples: Vec<ExampleSentence> = Vec::new();
    for i in 0..arr.len()
        invariant
            arr@ == items_of(spec_get(*tv, "examples"@)),
            f == (|v: JsonValue| example_sentence_of(v)),
            examples@.map_values(|e: ExampleSentence| e@) == arr@.take(i as int).filter_map(f),
    {
        proof {
            lemma_filter_map_step(arr@, f, i as int);
        }
        match parse_example_sentence(&arr[i]) {
            Some(e) => {
                proof {
                    lemma_map_push(examples@, e, |e: ExampleSentence| e@);
                }
                examples.push(e);
            },
            None => {},
        }
    }
    assert(arr@.take(arr@.len() as int) =~= arr@);
    if !text.as_str().is_empty() || !examples.is_empty() {
        Some(Translation { text, examples })
    } else {
        None
    }
}

fn parse_sense(sv: &JsonValue) -> (r: Option<Sense>)
    ensures
        r is Some <==> sense_of(*sv) is Some,
        r matches Some(s) ==> sense_of(*sv) == Some(s@),
{
    let arr = items(sv.get("translations"));
    let ghost f = |v: JsonValue| translation_of(v);
    let mut translations: Vec<Translation> = Vec::new();
    for i in 0..arr.len()
        invariant
            arr@ == items_of(spec_get(*sv, "translations"@)),
            f == (|v: JsonValue| translation_of(v)),
            translations@.map_values(|t: Translation| t@) == arr@.take(i as int).filter_map(f),
    {
        proof {
            lemma_filter_map_step(arr@, f, i as int);
        }
        match parse_translation(&arr[i]) {
            Some(t) => {
                proof {
                    lemma_map_push(translations@, t, |t: Translation| t@);
                }
                translations.push(t);
            },
            None => {},
        }
    }
    assert(arr@.take(arr@.len() as int) =~= arr@);
    if translations.is_empty() {
        return None;
    }
    let index: u32 = match get_in(Some(sv), "idx") {
        Some(n) => match n.as_u64() {
            Some(n) => (n % 0x1_0000_0000) as u32,
            None => 0,
        },
        None => 0,
    };
    let context = string_or_empty(sv.get("contextEn"));
    let regions = extract_string_array(sv, "regionsDisplay");
    let register_labels = extract_string_array(sv, "registerLabelsDisplay");
    Some(Sense { index, context, regions, register_labels, translations })
}

fn parse_pos_group(gv: &JsonValue) -> (r: Option<PosGroup>)
    ensures
        r is Some <==> pos_group_of(*gv) is Some,
        r matches Some(p) ==> pos_group_of(*gv) == Some(p@),
{
    let arr = items(gv.get("senses"));
    let ghost f = |v: JsonValue| sense_of(v);
    let mut senses: Vec<Sense> = Vec::new();
    for i in 0..arr.len()
        invariant
            arr@ == items_of(spec_get(*gv, "senses"@)),
            f == (|v: JsonValue| sense_of(v)),
            senses@.map_values(|s: Sense| s@) == arr@.take(i as int).filter_map(f),
    {
        proof {
            lemma_filter_map_step(arr@, f, i as int);
        }
        match parse_sense(&arr[i]) {
            Some(s) => {
                proof {
                    lemma_map_push(senses@, s, |s: Sense| s@);
                }
                senses.push(s);
            },
            None => {},
        }
    }
    assert(arr@.take(arr@.len() as int) =~= arr@);
    if senses.is_empty() {
        return None;
    }
    let pos_label = string_or_empty(get_in(gv.get("pos"), "nameEn"));
    Some(PosGroup { pos_label, senses })
}

fn parse_headword_group(item: &JsonValue) -> (r: Option<HeadwordGroup>)
    ensures
        r is Some <==> headword_group_of(*item) is Some,
        r matches Some(g) ==> headword_group_of(*item) == Some(g@),
{
    let arr = items(item.get("posGroups"));
    let ghost f = |v: JsonValue| pos_group_of(v);
    let mut pos_groups: Vec<PosGroup> = Vec::new();
    for i in 0..arr.len()
        invariant
            arr@ == items_of(spec_get(*item, "posGroups"@)),
            f == (|v: JsonValue| pos_group_of(v)),
            pos_groups@.map_values(|p: PosGroup| p@) == arr@.take(i as int).filter_map(f),
    {
        proof {
            lemma_filter_map_step(arr@, f, i as int);
        }
        match parse_pos_group(&arr[i]) {
            Some(p) => {
                proof {
                    lemma_map_push(pos_groups@, p, |p: PosGroup| p@);
                }
                pos_groups.push(p);
            },
            None => {},
        }
    }
    assert(arr@.take(arr@.len() as int) =~= arr@);
    if pos_groups.is_empty() {
        return None;
    }
    let subheadword = string_or_empty(item.get("subheadword"));
    Some(HeadwordGroup { subheadword, pos_groups })
}


/// The entries of the dictionary section, `/sdDictionaryResultsProps/entry/neodict`.
pub open spec fn neodict_of(data: JsonValue) -> Seq<JsonValue> {
    items_of(get_opt(get_opt(spec_get(data, "sdDictionaryResultsProps"@), "entry"@), "neodict"@))
}

/// The headword groups of the dictionary section that have content.
pub open spec fn headword_groups_of(data: JsonValue) -> Seq<HeadwordGroupView> {
    neodict_of(data).filter_map(|v: JsonValue| headword_group_of(v))
}

/// The text at `/resultCardHeaderProps/headwordAndQuickdefsProps/{key}/displayText`.
pub open spec fn header_text(data: JsonValue, key: Seq<char>) -> Option<Seq<char>> {
    str_of(
        get_opt(
            get_opt(get_opt(spec_get(data, "resultCardHeaderProps"@), "headwordAndQuickdefsProps"@), key),
            "displayText"@,
        ),
    )
}

/// The text of the first translation of the first sense of the first group, if any.
pub open spec fn first_translation_text(groups: Seq<HeadwordGroupView>) -> Option<Seq<char>> {
    if groups.len() > 0 && groups[0].pos_groups.len() > 0 && groups[0].pos_groups[0].senses.len() > 0
        && groups[0].pos_groups[0].senses[0].translations.len() > 0 {
        Some(groups[0].pos_groups[0].senses[0].translations[0].text)
    } else {
        None
    }
}

/// The quick definition: the first quick definition of the header, else the first translation.
pub open spec fn quick_definition_of(data: JsonValue) -> Option<Seq<char>> {
    if header_text(data, "quickdef1"@) is Some {
        header_text(data, "quickdef1"@)
    } else if header_text(data, "quickdef2"@) is Some {
        header_text(data, "quickdef2"@)
    } else {
        first_translation_text(headword_groups_of(data))
    }
}

/// Everything that the definitions page data says of a term.
pub open spec fn definitions_of(data: JsonValue) -> ParsedDefinitionsView {
    ParsedDefinitionsView {
        quick_definition: quick_definition_of(data),
        headword: header_text(data, "headword"@),
        headword_groups: headword_groups_of(data),
        lang_from: str_of(spec_get(data, "langFrom"@)),
        has_both_langs: match bool_of(spec_get(data, "hasBothLangs"@)) {
            Some(b) => b,
            None => false,
        },
    }
}

/// An example sentence has both of its texts.
pub open spec fn example_complete(e: ExampleSentenceView) -> bool {
    e.spanish.len() > 0 && e.english.len() > 0
}

/// A translation has a text or an example, and its examples are complete.
pub open spec fn translation_complete(t: TranslationView) -> bool {
    &&& t.text.len() > 0 || t.examples.len() > 0
    &&& forall|i: int| 0 <= i < t.examples.len() ==> example_complete(#[trigger] t.examples[i])
}

/// A sense has a translation, and its translations are complete.
pub open spec fn sense_complete(s: SenseView) -> bool {
    &&& s.translations.len() > 0
    &&& forall|i: int| 0 <= i < s.translations.len() ==> translation_complete(#[trigger] s.translations[i])
}

/// A part-of-speech group has a sense, and its senses are complete.
pub open spec fn pos_group_complete(p: PosGroupView) -> bool {
    &&& p.senses.len() > 0
    &&& forall|i: int| 0 <= i < p.senses.len() ==> sense_complete(#[trigger] p.senses[i])
}

/// A headword group has a part-of-speech group, and its groups are complete.
pub open spec fn headword_group_complete(g: HeadwordGroupView) -> bool {
    &&& g.pos_groups.len() > 0
    &&& forall|i: int| 0 <= i < g.pos_groups.len() ==> pos_group_complete(#[trigger] g.pos_groups[i])
}

proof fn lemma_filter_map_all<A, B>(s: Seq<A>, f: spec_fn(A) -> Option<B>, p: spec_fn(B) -> bool)
    requires
        forall|x: A| #[trigger] f(x) is Some ==> p(f(x).unwrap()),
    ensures
        forall|i: int| 0 <= i < s.filter_map(f).len() ==> p(#[trigger] s.filter_map(f)[i]),
    decreases s.len(),
{
    if s.len() > 0 {
        lemma_filter_map_all(s.drop_last(), f, p);
        let rest = s.drop_last().filter_map(f);
        match f(s.last()) {
            Some(b) => {
                assert(s.filter_map(f) == rest + seq![b]);
                assert forall|i: int| 0 <= i < s.filter_map(f).len() implies p(#[trigger] s.filter_map(f)[i]) by {
                    if i < rest.len() {
                        assert(s.filter_map(f)[i] == rest[i]);
                    } else {
                        assert(s.filter_map(f)[i] == b);
                    }
                }
            },
            None => {},
        }
    }
}

/// Law: parsing never yields an empty group. Every headword group has a part-of-speech group,
/// every part-of-speech group a sense, every sense a translation, every translation a text or
/// an example sentence, and every example sentence both of its texts.
pub proof fn law_parsed_groups_are_complete(data: JsonValue)
    ensures
        forall|i: int| 0 <= i < definitions_of(data).headword_groups.len() ==> headword_group_complete(
            #[trigger] definitions_of(data).headword_groups[i],
        ),
{
    let fe = |v: JsonValue| example_sentence_of(v);
    let ft = |v: JsonValue| translation_of(v);
    let fs = |v: JsonValue| sense_of(v);
    let fp = |v: JsonValue| pos_group_of(v);
    let fh = |v: JsonValue| headword_group_of(v);
    assert forall|v: JsonValue| #[trigger] ft(v) is Some implies translation_complete(ft(v).unwrap()) by {
        lemma_filter_map_all(items_of(spec_get(v, "examples"@)), fe, |e: ExampleSentenceView| example_complete(e));
    }
    assert forall|v: JsonValue| #[trigger] fs(v) is Some implies sense_complete(fs(v).unwrap()) by {
        lemma_filter_map_all(items_of(spec_get(v, "translations"@)), ft, |t: TranslationView| translation_complete(t));
    }
    assert forall|v: JsonValue| #[trigger] fp(v) is Some implies pos_group_complete(fp(v).unwrap()) by {
        lemma_filter_map_all(items_of(spec_get(v, "senses"@)), fs, |s: SenseView| sense_complete(s));
    }
    assert forall|v: JsonValue| #[trigger] fh(v) is Some implies headword_group_complete(fh(v).unwrap()) by {
        lemma_filter_map_all(items_of(spec_get(v, "posGroups"@)), fp, |p: PosGroupView| pos_group_complete(p));
    }
    lemma_filter_map_all(neodict_of(data), fh, |g: HeadwordGroupView| headword_group_complete(g));
}

/// Law: an example sentence is read from a JSON example exactly when its `textEs` and `textEn`
/// strings are both non-empty, and it holds those two texts.
pub proof fn law_example_sentence_texts(ex: JsonValue)
    ensures
        example_sentence_of(ex) is Some <==> str_or_empty(spec_get(ex, "textEs"@)).len() > 0 && str_or_empty(
            spec_get(ex, "textEn"@),
        ).len() > 0,
        example_sentence_of(ex) matches Some(e) ==> e.spanish == str_or_empty(spec_get(ex, "textEs"@))
            && e.english == str_or_empty(spec_get(ex, "textEn"@)),
{
}

/// Law: a translation is read from a JSON translation exactly when its `translation` text is
/// non-empty or one of its JSON examples gives an example sentence. It holds that text, and its
/// example sentences are exactly those that its JSON examples give, one for each that gives
/// one, in order.
pub proof fn law_translation_keeps_examples(tv: JsonValue)
    ensures
        translation_of(tv) is Some <==> str_or_empty(spec_get(tv, "translation"@)).len() > 0 || exists|i: int|
            0 <= i < items_of(spec_get(tv, "examples"@)).len() && (#[trigger] example_sentence_of(
                items_of(spec_get(tv, "examples"@))[i],
            )) is Some,
        translation_of(tv) matches Some(t) ==> {
            &&& t.text == str_or_empty(spec_get(tv, "translation"@))
            &&& picks(t.examples, items_of(spec_get(tv, "examples"@)), |v: JsonValue| example_sentence_of(v))
            &&& t.examples.len() == items_of(spec_get(tv, "examples"@)).filter(
                |v: JsonValue| example_sentence_of(v) is Some,
            ).len()
        },
{
    let s = items_of(spec_get(tv, "examples"@));
    let f = |v: JsonValue| example_sentence_of(v);
    lemma_filter_map_picks(s, f);
    lemma_picks_nonempty(s.filter_map(f), s, f);
    lemma_filter_map_len(s, f, |v: JsonValue| example_sentence_of(v) is Some);
    if exists|i: int| 0 <= i < s.len() && (#[trigger] example_sentence_of(s[i])) is Some {
        let i = choose|i: int| 0 <= i < s.len() && (#[trigger] example_sentence_of(s[i])) is Some;
        assert(f(s[i]) is Some);
    }
    if s.filter_map(f).len() > 0 {
        let i = choose|i: int| 0 <= i < s.len() && (#[trigger] f(s[i])) is Some;
        assert(example_sentence_of(s[i]) is Some);
    }
}

/// Law: a sense is read from a JSON sense exactly when one of its JSON translations gives a
/// translation. Its translations are exactly those that its JSON translations give, one for
/// each that gives one, in order; its index, context, regions and register labels are read from
/// `idx`, `contextEn`, `regionsDisplay` and `registerLabelsDisplay`.
pub proof fn law_sense_keeps_translations(sv: JsonValue)
    ensures
        sense_of(sv) is Some <==> exists|i: int|
            0 <= i < items_of(spec_get(sv, "translations"@)).len() && (#[trigger] translation_of(
                items_of(spec_get(sv, "translations"@))[i],
            )) is Some,
        sense_of(sv) matches Some(t) ==> {
            &&& picks(t.translations, items_of(spec_get(sv, "translations"@)), |v: JsonValue| translation_of(v))
            &&& t.translations.len() == items_of(spec_get(sv, "translations"@)).filter(
                |v: JsonValue| translation_of(v) is Some,
            ).len()
            &&& t.index == match u64_of(spec_get(sv, "idx"@)) {
                Some(n) => (n % 0x1_0000_0000) as u32,
                None => 0u32,
            }
            &&& t.context == str_or_empty(spec_get(sv, "contextEn"@))
            &&& t.regions == items_of(spec_get(sv, "regionsDisplay"@)).filter_map(
                |v: JsonValue| str_of(Some(v)),
            )
            &&& t.register_labels == items_of(spec_get(sv, "registerLabelsDisplay"@)).filter_map(
                |v: JsonValue| str_of(Some(v)),
            )
        },
{
    let s = items_of(spec_get(sv, "translations"@));
    let f = |v: JsonValue| translation_of(v);
    lemma_filter_map_picks(s, f);
    lemma_picks_nonempty(s.filter_map(f), s, f);
    lemma_filter_map_len(s, f, |v: JsonValue| translation_of(v) is Some);
    if exists|i: int| 0 <= i < s.len() && (#[trigger] translation_of(s[i])) is Some {
        let i = choose|i: int| 0 <= i < s.len() && (#[trigger] translation_of(s[i])) is Some;
        assert(f(s[i]) is Some);
    }
    if s.filter_map(f).len() > 0 {
        let i = choose|i: int| 0 <= i < s.len() && (#[trigger] f(s[i])) is Some;
        assert(translation_of(s[i]) is Some);
    }
}

/// Law: a part-of-speech group is read from a JSON group exactly when one of its JSON senses
/// gives a sense. Its senses are exactly those that its JSON senses give, one for each that
/// gives one, in order, and its label is `pos/nameEn`.
pub proof fn law_pos_group_keeps_senses(gv: JsonValue)
    ensures
        pos_group_of(gv) is Some <==> exists|i: int|
            0 <= i < items_of(spec_get(gv, "senses"@)).len() && (#[trigger] sense_of(
                items_of(spec_get(gv, "senses"@))[i],
            )) is Some,
        pos_group_of(gv) matches Some(p) ==> {
            &&& picks(p.senses, items_of(spec_get(gv, "senses"@)), |v: JsonValue| sense_of(v))
            &&& p.senses.len() == items_of(spec_get(gv, "senses"@)).filter(|v: JsonValue| sense_of(v) is Some).len()
            &&& p.pos_label == str_or_empty(get_opt(spec_get(gv, "pos"@), "nameEn"@))
        },
{
    let s = items_of(spec_get(gv, "senses"@));
    let f = |v: JsonValue| sense_of(v);
    lemma_filter_map_picks(s, f);
    lemma_picks_nonempty(s.filter_map(f), s, f);
    lemma_filter_map_len(s, f, |v: JsonValue| sense_of(v) is Some);
    if exists|i: int| 0 <= i < s.len() && (#[trigger] sense_of(s[i])) is Some {
        let i = choose|i: int| 0 <= i < s.len() && (#[trigger] sense_of(s[i])) is Some;
        assert(f(s[i]) is Some);
    }
    if s.filter_map(f).len() > 0 {
        let i = choose|i: int| 0 <= i < s.len() && (#[trigger] f(s[i])) is Some;
        assert(sense_of(s[i]) is Some);
    }
}

/// Law: a headword group is read from a JSON entry exactly when one of its JSON `posGroups`
/// gives a part-of-speech group. Its groups are exactly those that its JSON groups give, one for
/// each that gives one, in order, and its subheadword is `subheadword`.
pub proof fn law_headword_group_keeps_pos_groups(item: JsonValue)
    ensures
        headword_group_of(item) is Some <==> exists|i: int|
            0 <= i < items_of(spec_get(item, "posGroups"@)).len() && (#[trigger] pos_group_of(
                items_of(spec_get(item, "posGroups"@))[i],
            )) is Some,
        headword_group_of(item) matches Some(g) ==> {
            &&& picks(g.pos_groups, items_of(spec_get(item, "posGroups"@)), |v: JsonValue| pos_group_of(v))
            &&& g.pos_groups.len() == items_of(spec_get(item, "posGroups"@)).filter(
                |v: JsonValue| pos_group_of(v) is Some,
            ).len()
            &&& g.subheadword == str_or_empty(spec_get(item, "subheadword"@))
        },
{
    let s = items_of(spec_get(item, "posGroups"@));
    let f = |v: JsonValue| pos_group_of(v);
    lemma_filter_map_picks(s, f);
    lemma_picks_nonempty(s.filter_map(f), s, f);
    lemma_filter_map_len(s, f, |v: JsonValue| pos_group_of(v) is Some);
    if exists|i: int| 0 <= i < s.len() && (#[trigger] pos_group_of(s[i])) is Some {
        let i = choose|i: int| 0 <= i < s.len() && (#[trigger] pos_group_of(s[i])) is Some;
        assert(f(s[i]) is Some);
    }
    if s.filter_map(f).len() > 0 {
        let i = choose|i: int| 0 <= i < s.len() && (#[trigger] f(s[i])) is Some;
        assert(pos_group_of(s[i]) is Some);
    }
}

/// Law: the headword groups of the definitions are exactly those that the entries of
/// `/sdDictionaryResultsProps/entry/neodict` give, one for each that gives one, in order.
pub proof fn law_definitions_keep_entries(data: JsonValue)
    ensures
        picks(
            definitions_of(data).headword_groups,
            items_of(get_opt(get_opt(spec_get(data, "sdDictionaryResultsProps"@), "entry"@), "neodict"@)),
            |v: JsonValue| headword_group_of(v),
        ),
        definitions_of(data).headword_groups.len() == items_of(
            get_opt(get_opt(spec_get(data, "sdDictionaryResultsProps"@), "entry"@), "neodict"@),
        ).filter(|v: JsonValue| headword_group_of(v) is Some).len(),
{
    let s = items_of(get_opt(get_opt(spec_get(data, "sdDictionaryResultsProps"@), "entry"@), "neodict"@));
    let f = |v: JsonValue| headword_group_of(v);
    lemma_filter_map_picks(s, f);
    lemma_filter_map_len(s, f, |v: JsonValue| headword_group_of(v) is Some);
}

/// Law: the quick definition is the first of the header's quick definitions `quickdef1` and
/// `quickdef2` that the page data holds; where it holds neither, it is the text of the first
/// translation of the first sense of the first part-of-speech group of the first headword
/// group, and there is one exactly when the definitions have a headword group.
pub proof fn law_quick_definition_falls_back(data: JsonValue)
    ensures
        header_text(data, "quickdef1"@) is Some ==> definitions_of(data).quick_definition == header_text(
            data,
            "quickdef1"@,
        ),
        header_text(data, "quickdef1"@) is None && header_text(data, "quickdef2"@) is Some
            ==> definitions_of(data).quick_definition == header_text(data, "quickdef2"@),
        header_text(data, "quickdef1"@) is None && header_text(data, "quickdef2"@) is None ==> {
            let groups = definitions_of(data).headword_groups;
            &&& definitions_of(data).quick_definition is Some <==> groups.len() > 0
            &&& groups.len() > 0 ==> definitions_of(data).quick_definition == Some(
                groups[0].pos_groups[0].senses[0].translations[0].text,
            )
        },
{
    law_parsed_groups_are_complete(data);
    let groups = definitions_of(data).headword_groups;
    if groups.len() > 0 {
        assert(headword_group_complete(groups[0]));
        assert(pos_group_complete(groups[0].pos_groups[0]));
        assert(sense_complete(groups[0].pos_groups[0].senses[0]));
    }
}

fn header_string(data: &JsonValue, key: &str) -> (r: Option<String>)
    ensures
        opt_text(r) == header_text(*data, key@),
{
    let props = get_in(data.get("resultCardHeaderProps"), "headwordAndQuickdefsProps");
    string_of(get_in(get_in(props, key), "displayText"))
}

/// Parses the definitions from the SD_COMPONENT_DATA JSON.
pub fn parse_definitions(data: &JsonValue) -> (r: ParsedDefinitions)
    ensures
        r@ == definitions_of(*data),
{
    let neodict = items(get_in(get_in(data.get("sdDictionaryResultsProps"), "entry"), "neodict"));
    let ghost f = |v: JsonValue| headword_group_of(v);
    let mut headword_groups: Vec<HeadwordGroup> = Vec::new();
    for i in 0..neodict.len()
        invariant
            neodict@ == neodict_of(*data),
            f == (|v: JsonValue| headword_group_of(v)),
            group_views(headword_groups@) == neodict@.take(i as int).filter_map(f),
    {
        proof {
            lemma_filter_map_step(neodict@, f, i as int);
        }
        match parse_headword_group(&neodict[i]) {
            Some(g) => {
                proof {
                    lemma_map_push(headword_groups@, g, |g: HeadwordGroup| g@);
                }
                headword_groups.push(g);
            },
            None => {},
        }
    }
    assert(neodict@.take(neodict@.len() as int) =~= neodict@);

    let mut quick_definition = header_string(data, "quickdef1");
    if quick_definition.is_none() {
        quick_definition = header_string(data, "quickdef2");
    }
    if quick_definition.is_none() && headword_groups.len() > 0 {
        let hw = &headword_groups[0];
        assert(hw@ == group_views(headword_groups@)[0]);
        if hw.pos_groups.len() > 0 {
            let pg = &hw.pos_groups[0];
            assert(pg@ == hw@.pos_groups[0]);
            if pg.senses.len() > 0 {
                let sense = &pg.senses[0];
                assert(sense@ == pg@.senses[0]);
                if sense.translations.len() > 0 {
                    assert(sense.translations[0]@ == sense@.translations[0]);
                    quick_definition = Some(sense.translations[0].text.clone());
                }
            }
        }
    }

    let headword = header_string(data, "headword");
    let lang_from = string_of(data.get("langFrom"));
    let has_both_langs = match data.get("hasBothLangs") {
        Some(v) => match v.as_bool() {
            Some(b) => b,
            None => false,
        },
        None => false,
    };
    ParsedDefinitions { quick_definition, headword, headword_groups, lang_from, has_both_langs }
}


// ---------------------------------------------------------------------------
// Sanitizing and corpus examples
// ---------------------------------------------------------------------------

/// Sanitizes HTML, allowing only `<em>` tags (used by SpanishDict to highlight
/// the search term in corpus examples). All other tags are stripped.
pub fn sanitize_html(s: &str) -> (r: String)
    ensures
        r@ == html_cleaned(s@, "em"@),
{
    proof {
        reveal_strlit("em");
        reveal_strlit("script");
        reveal_strlit("style");
        assert("em"@.len() != "script"@.len());
        assert("em"@.len() != "style"@.len());
    }
    clean_html(s, "em")
}

/// The key of the examples of the examples page for the language `lang` of the search term:
/// `explorationResponseFromServerEn` for `en`, `explorationResponseFromServerEs` otherwise.
pub open spec fn examples_key(lang: Seq<char>) -> Seq<char> {
    if lang == "en"@ {
        "explorationResponseFromServerEn"@
    } else {
        "explorationResponseFromServerEs"@
    }
}

/// The sentences of the examples page for the language `lang`,
/// `/{examples_key(lang)}/data/data/sentences`.
pub open spec fn sentences_of(data: JsonValue, lang: Seq<char>) -> Seq<JsonValue> {
    items_of(get_opt(get_opt(get_opt(spec_get(data, examples_key(lang)), "data"@), "data"@), "sentences"@))
}

/// A corpus example: kept when both of its texts are non-empty, then sanitized. The sentence
/// (`source`) goes to `spanish`, its translation (`target`) to `english`.
pub open spec fn corpus_example_of(sv: JsonValue) -> Option<CorpusExampleView> {
    let source = str_or_empty(spec_get(sv, "source"@));
    let target = str_or_empty(spec_get(sv, "target"@));
    if source.len() > 0 && target.len() > 0 {
        Some(
            CorpusExampleView {
                spanish: html_cleaned(source, "em"@),
                english: html_cleaned(target, "em"@),
            },
        )
    } else {
        None
    }
}

/// The corpus examples of the examples page data for the language `lang`.
pub open spec fn corpus_examples_of(data: JsonValue, lang: Seq<char>) -> Seq<CorpusExampleView> {
    sentences_of(data, lang).filter_map(|v: JsonValue| corpus_example_of(v))
}

/// Parses corpus examples from the SD_COMPONENT_DATA of the examples page of a Spanish term:
/// the Spanish sentences with their English translations.
pub fn parse_examples(data: &JsonValue) -> (r: Vec<CorpusExample>)
    ensures
        example_views(r@) == corpus_examples_of(*data, "es"@),
        picks(
            example_views(r@),
            items_of(
                get_opt(
                    get_opt(get_opt(spec_get(*data, "explorationResponseFromServerEs"@), "data"@), "data"@),
                    "sentences"@,
                ),
            ),
            |v: JsonValue| corpus_example_of(v),
        ),
{
    let r = parse_examples_for(data, "es");
    proof {
        reveal_strlit("es");
        reveal_strlit("en");
        assert("es"@ != "en"@) by {
            assert("es"@[1] != "en"@[1]);
        }
        law_examples_of_language(*data, "es"@);
    }
    r
}

/// Parses corpus examples from the SD_COMPONENT_DATA of the examples page.
/// `lang` is the language of the search term, "es" or "en": the examples are read from
/// `explorationResponseFromServerEn` for `lang=en` and from `explorationResponseFromServerEs`
/// otherwise. Each example holds the sentence in the searched language in `spanish` and its
/// translation in `english`.
pub fn parse_examples_for(data: &JsonValue, lang: &str) -> (r: Vec<CorpusExample>)
    ensures
        example_views(r@) == corpus_examples_of(*data, lang@),
        picks(
            example_views(r@),
            items_of(
                get_opt(
                    get_opt(
                        get_opt(
                            spec_get(
                                *data,
                                if lang@ == "en"@ {
                                    "explorationResponseFromServerEn"@
                                } else {
                                    "explorationResponseFromServerEs"@
                                },
                            ),
                            "data"@,
                        ),
                        "data"@,
                    ),
                    "sentences"@,
                ),
            ),
            |v: JsonValue| corpus_example_of(v),
        ),
{
    proof {
        law_examples_of_language(*data, lang@);
    }
    let key = if lang.to_owned() == "en".to_owned() {
        "explorationResponseFromServerEn"
    } else {
        "explorationResponseFromServerEs"
    };
    assert(key@ == examples_key(lang@));
    let sentences = items(get_in(get_in(get_in(data.get(key), "data"), "data"), "sentences"));
    let ghost f = |v: JsonValue| corpus_example_of(v);
    let mut examples: Vec<CorpusExample> = Vec::new();
    for i in 0..sentences.len()
        invariant
            sentences@ == sentences_of(*data, lang@),
            f == (|v: JsonValue| corpus_example_of(v)),
            example_views(examples@) == sentences@.take(i as int).filter_map(f),
    {
        proof {
            lemma_filter_map_step(sentences@, f, i as int);
        }
        let sentence = &sentences[i];
        let source = string_or_empty(sentence.get("source"));
        let target = string_or_empty(sentence.get("target"));
        if !source.as_str().is_empty() && !target.as_str().is_empty() {
            let e = CorpusExample {
                spanish: sanitize_html(source.as_str()),
                english: sanitize_html(target.as_str()),
            };
            proof {
                lemma_map_push(examples@, e, |e: CorpusExample| e@);
            }
            examples.push(e);
        }
    }
    assert(sentences@.take(sentences@.len() as int) =~= sentences@);
    examples
}

/// Law: a corpus example is read from a JSON sentence exactly when its `source` and `target`
/// strings are both non-empty; it holds the source in `spanish` and the target in `english`,
/// each sanitized to `<em>` markup.
pub proof fn law_corpus_example_texts(sv: JsonValue)
    ensures
        corpus_example_of(sv) is Some <==> str_or_empty(spec_get(sv, "source"@)).len() > 0 && str_or_empty(
            spec_get(sv, "target"@),
        ).len() > 0,
        corpus_example_of(sv) matches Some(e) ==> e.spanish == html_cleaned(
            str_or_empty(spec_get(sv, "source"@)),
            "em"@,
        ) && e.english == html_cleaned(str_or_empty(spec_get(sv, "target"@)), "em"@),
{
}

/// Law: the corpus examples read for the language `lang` are exactly those that the sentences
/// under `/explorationResponseFromServerEn/data/data/sentences` give where `lang` is `en`, and
/// under `/explorationResponseFromServerEs/data/data/sentences` otherwise: one for each such
/// sentence that gives one, in order. The sentences under the other key never count.
pub proof fn law_examples_of_language(data: JsonValue, lang: Seq<char>)
    ensures
        ({
            let key = if lang == "en"@ {
                "explorationResponseFromServerEn"@
            } else {
                "explorationResponseFromServerEs"@
            };
            let sentences = items_of(get_opt(get_opt(get_opt(spec_get(data, key), "data"@), "data"@), "sentences"@));
            &&& picks(corpus_examples_of(data, lang), sentences, |v: JsonValue| corpus_example_of(v))
            &&& corpus_examples_of(data, lang).len() == sentences.filter(
                |v: JsonValue| corpus_example_of(v) is Some,
            ).len()
        }),
{
    let s = sentences_of(data, lang);
    let f = |v: JsonValue| corpus_example_of(v);
    lemma_filter_map_picks(s, f);
    lemma_filter_map_len(s, f, |v: JsonValue| corpus_example_of(v) is Some);
}

// ---------------------------------------------------------------------------
// Finding the page data
// ---------------------------------------------------------------------------

/// The text that marks the script holding the page data.
pub const SD_DATA_MARKER: &'static str = "SD_COMPONENT_DATA";

/// The pattern whose first group is the JSON object of the page data.
pub const SD_DATA_PATTERN: &'static str = "SD_COMPONENT_DATA = (\\{.*?\\});";

/// The texts of the `script` elements of a page.
pub open spec fn script_texts(html: Seq<char>) -> Seq<Seq<char>> {
    match selected_texts(html, "script"@) {
        Some(t) => t,
        None => seq![],
    }
}

/// The JSON text of the page data: group 1 of the first match of `SD_DATA_PATTERN` in the
/// first script that mentions `SD_DATA_MARKER` and holds such a match.
pub open spec fn sd_json_text(scripts: Seq<Seq<char>>) -> Option<Seq<char>>
    decreases scripts.len(),
{
    if scripts.len() == 0 {
        None
    } else if has_substring(scripts[0], SD_DATA_MARKER@) && regex_group1(SD_DATA_PATTERN@, scripts[0]) is Some
        && regex_group1(SD_DATA_PATTERN@, scripts[0]).unwrap().len() > 0 {
        Some(regex_group1(SD_DATA_PATTERN@, scripts[0]).unwrap()[0])
    } else {
        sd_json_text(scripts.drop_first())
    }
}

/// The page data of a page: the JSON value of its SD_COMPONENT_DATA object.
pub open spec fn page_data(html: Seq<char>) -> Option<JsonValue> {
    match sd_json_text(script_texts(html)) {
        Some(j) => match json_parsed(j) {
            Ok(v) => Some(v),
            Err(_) => None,
        },
        None => None,
    }
}

/// The text of the error for a page without usable page data: no script holds the object, or
/// its JSON text is not JSON, followed by serde_json's description of the error.
pub open spec fn data_error_text(html: Seq<char>, m: Seq<char>) -> bool {
    match sd_json_text(script_texts(html)) {
        None => m == "No SD_COMPONENT_DATA found in HTML"@,
        Some(j) => match json_parsed(j) {
            Err(e) => m == "Invalid JSON: "@ + e,
            Ok(_) => false,
        },
    }
}

/// Law: the JSON text of the page data comes from the first script that mentions
/// `SD_DATA_MARKER` and in which `SD_DATA_PATTERN` captures a group: it is that group. There is
/// none exactly when no script is such.
pub proof fn law_page_data_from_first_script(scripts: Seq<Seq<char>>)
    ensures
        sd_json_text(scripts) matches Some(j) ==> exists|i: int|
            #![trigger scripts[i]]
            0 <= i < scripts.len() && has_substring(scripts[i], SD_DATA_MARKER@) && regex_group1(
                SD_DATA_PATTERN@,
                scripts[i],
            ) is Some && regex_group1(SD_DATA_PATTERN@, scripts[i]).unwrap().len() > 0 && j == regex_group1(
                SD_DATA_PATTERN@,
                scripts[i],
            ).unwrap()[0] && forall|k: int|
                #![trigger scripts[k]]
                0 <= k < i ==> !(has_substring(scripts[k], SD_DATA_MARKER@) && regex_group1(
                    SD_DATA_PATTERN@,
                    scripts[k],
                ) is Some && regex_group1(SD_DATA_PATTERN@, scripts[k]).unwrap().len() > 0),
        sd_json_text(scripts) is None <==> forall|i: int|
            #![trigger scripts[i]]
            0 <= i < scripts.len() ==> !(has_substring(scripts[i], SD_DATA_MARKER@) && regex_group1(
                SD_DATA_PATTERN@,
                scripts[i],
            ) is Some && regex_group1(SD_DATA_PATTERN@, scripts[i]).unwrap().len() > 0),
    decreases scripts.len(),
{
    if scripts.len() > 0 {
        let rest = scripts.drop_first();
        law_page_data_from_first_script(rest);
        assert forall|i: int| 0 <= i < rest.len() implies #[trigger] rest[i] == scripts[i + 1] by {}
        let x = scripts[0];
        let found = has_substring(x, SD_DATA_MARKER@) && regex_group1(SD_DATA_PATTERN@, x) is Some
            && regex_group1(SD_DATA_PATTERN@, x).unwrap().len() > 0;
        if !found {
            if sd_json_text(scripts) is Some {
                let i = choose|i: int|
                    #![trigger rest[i]]
                    0 <= i < rest.len() && has_substring(rest[i], SD_DATA_MARKER@) && regex_group1(
                        SD_DATA_PATTERN@,
                        rest[i],
                    ) is Some && regex_group1(SD_DATA_PATTERN@, rest[i]).unwrap().len() > 0 && sd_json_text(
                        scripts,
                    ).unwrap() == regex_group1(SD_DATA_PATTERN@, rest[i]).unwrap()[0] && forall|k: int|
                        #![trigger rest[k]]
                        0 <= k < i ==> !(has_substring(rest[k], SD_DATA_MARKER@) && regex_group1(
                            SD_DATA_PATTERN@,
                            rest[k],
                        ) is Some && regex_group1(SD_DATA_PATTERN@, rest[k]).unwrap().len() > 0);
                assert(scripts[i + 1] == rest[i]);
                assert forall|k: int| #![trigger scripts[k]] 0 <= k < i + 1 implies !(has_substring(
                    scripts[k],
                    SD_DATA_MARKER@,
                ) && regex_group1(SD_DATA_PATTERN@, scripts[k]) is Some && regex_group1(
                    SD_DATA_PATTERN@,
                    scripts[k],
                ).unwrap().len() > 0) by {
                    if k > 0 {
                        assert(scripts[k] == rest[k - 1]);
                    }
                }
            } else {
                assert forall|i: int| #![trigger scripts[i]] 0 <= i < scripts.len() implies !(has_substring(
                    scripts[i],
                    SD_DATA_MARKER@,
                ) && regex_group1(SD_DATA_PATTERN@, scripts[i]) is Some && regex_group1(
                    SD_DATA_PATTERN@,
                    scripts[i],
                ).unwrap().len() > 0) by {
                    if i > 0 {
                        assert(scripts[i] == rest[i - 1]);
                    }
                }
            }
        }
    }
}

/// Extracts the SD_COMPONENT_DATA JSON object from the HTML, which contains
/// all the data needed to parse the definitions and examples.
pub fn extract_sd_data(html: &str) -> (r: Result<JsonValue, SdictError>)
    ensures
        r is Ok <==> page_data(html@) is Some,
        r matches Ok(v) ==> page_data(html@) == Some(v),
        r matches Err(e) ==> (e matches SdictError::Parse(m) && data_error_text(html@, m@)),
        sd_json_text(script_texts(html@)) is None ==> (r matches Err(SdictError::Parse(m))
            && m@ == "No SD_COMPONENT_DATA found in HTML"@),
        sd_json_text(script_texts(html@)) matches Some(j) ==> match json_parsed(j) {
            Ok(v) => r == Ok::<JsonValue, SdictError>(v),
            Err(e) => (r matches Err(SdictError::Parse(m)) && m@ == "Invalid JSON: "@ + e),
        },
{
    let scripts = match select_texts(html, "script") {
        Some(t) => t,
        None => Vec::new(),
    };
    let ghost all = string_views(scripts@);
    assert(all == script_texts(html@));
    assert(all.skip(0) =~= all);
    for i in 0..scripts.len()
        invariant
            all == string_views(scripts@),
            all == script_texts(html@),
            sd_json_text(all) == sd_json_text(all.skip(i as int)),
    {
        assert(all.skip(i as int)[0] == scripts@[i as int]@);
        assert(all.skip(i as int).drop_first() =~= all.skip(i + 1));
        let text = scripts[i].as_str();
        if contains(text, SD_DATA_MARKER) {
            match regex_captures(SD_DATA_PATTERN, text) {
                Some(caps) => {
                    if caps.len() > 0 {
                        assert(caps@[0]@ == regex_group1(SD_DATA_PATTERN@, text@).unwrap()[0]);
                        return match parse_json(caps[0].as_str()) {
                            Ok(v) => Ok(v),
                            Err(detail) => {
                                let mut msg = "Invalid JSON: ".to_owned();
                                msg.append(detail.as_str());
                                Err(SdictError::Parse(msg))
                            },
                        };
                    }
                },
                None => {},
            }
        }
    }
    Err(SdictError::Parse("No SD_COMPONENT_DATA found in HTML".to_owned()))
}


// ---------------------------------------------------------------------------
// Highlighted words
// ---------------------------------------------------------------------------

/// The pattern of a highlighted word; group 1 is the word.
pub const EM_PATTERN: &'static str = "<em>(.*?)</em>";

/// The highlighted words of a text, in lower case, in order of appearance.
pub open spec fn em_labels(text: Seq<char>) -> Seq<Seq<char>> {
    match regex_group1(EM_PATTERN@, text) {
        Some(words) => words.map_values(|w: Seq<char>| lowercase_of(w)),
        None => seq![],
    }
}

/// The translation of an example highlights `label` (compared in lower case).
pub open spec fn has_label(e: CorpusExampleView, label: Seq<char>) -> bool {
    em_labels(e.english).contains(label)
}

/// The number of examples whose translation highlights `label`.
pub open spec fn label_count(examples: Seq<CorpusExampleView>, label: Seq<char>) -> nat
    decreases examples.len(),
{
    if examples.len() == 0 {
        0
    } else {
        label_count(examples.drop_last(), label) + if has_label(examples.last(), label) {
            1nat
        } else {
            0nat
        }
    }
}

/// Some tag of `tags` has the label `label`.
pub open spec fn lists_label(tags: Seq<FilterTag>, label: Seq<char>) -> bool {
    exists|k: int| 0 <= k < tags.len() && (#[trigger] tags[k]).label@ == label
}

proof fn lemma_push_contains<A>(s: Seq<A>, x: A, z: A)
    ensures
        s.push(x).contains(z) <==> s.contains(z) || z == x,
{
    if s.push(x).contains(z) && z != x {
        let q = choose|q: int| 0 <= q < s.len() + 1 && s.push(x)[q] == z;
        assert(s[q] == z);
    }
    if s.contains(z) {
        let q = choose|q: int| 0 <= q < s.len() && s[q] == z;
        assert(s.push(x)[q] == z);
    }
    if z == x {
        assert(s.push(x)[s.len() as int] == z);
    }
}

proof fn lemma_label_count_le(examples: Seq<CorpusExampleView>, label: Seq<char>)
    ensures
        label_count(examples, label) <= examples.len(),
    decreases examples.len(),
{
    if examples.len() > 0 {
        lemma_label_count_le(examples.drop_last(), label);
    }
}

proof fn lemma_label_count_step(examples: Seq<CorpusExampleView>, i: int, label: Seq<char>)
    requires
        0 <= i < examples.len(),
    ensures
        label_count(examples.take(i + 1), label) == label_count(examples.take(i), label) + if has_label(
            examples[i],
            label,
        ) {
            1nat
        } else {
            0nat
        },
{
    assert(examples.take(i + 1).drop_last() =~= examples.take(i));
}

/// The highlighted words of `text`, in lower case.
fn em_label_list(text: &str) -> (r: Vec<String>)
    ensures
        string_views(r@) == em_labels(text@),
{
    let words = match regex_captures(EM_PATTERN, text) {
        Some(w) => w,
        None => {
            return Vec::new();
        },
    };
    let ghost ws = regex_group1(EM_PATTERN@, text@).unwrap();
    let mut out: Vec<String> = Vec::new();
    for j in 0..words.len()
        invariant
            string_views(words@) == ws,
            ws == regex_group1(EM_PATTERN@, text@).unwrap(),
            string_views(out@) =~= ws.take(j as int).map_values(
                |w: Seq<char>| lowercase_of(w),
            ),
    {
        assert(words@[j as int]@ == ws[j as int]);
        let w = lowercase(words[j].as_str());
        proof {
            lemma_map_push(out@, w, |s: String| s@);
            assert(ws.take(j + 1) =~= ws.take(j as int).push(ws[j as int]));
            lemma_map_push(ws.take(j as int), ws[j as int], |w: Seq<char>| lowercase_of(w));
        }
        out.push(w);
    }
    assert(ws.take(words@.len() as int) =~= ws);
    out
}

/// Whether `v` holds a string with the text of `s`.
fn holds_string(v: &Vec<String>, s: &String) -> (r: bool)
    ensures
        r == string_views(v@).contains(s@),
{
    for k in 0..v.len()
        invariant
            forall|m: int| 0 <= m < k ==> v@[m]@ != s@,
    {
        if v[k] == *s {
            assert(string_views(v@)[k as int] == s@);
            return true;
        }
    }
    proof {
        if string_views(v@).contains(s@) {
            let m = choose|m: int| 0 <= m < v@.len() && string_views(v@)[m] == s@;
            assert(v@[m]@ == s@);
        }
    }
    false
}

/// A copy of a corpus example.
fn copy_example(e: &CorpusExample) -> (r: CorpusExample)
    ensures
        r@ == e@,
{
    CorpusExample { spanish: e.spanish.clone(), english: e.english.clone() }
}

/// Copies of corpus examples.
pub fn copy_examples(examples: &Vec<CorpusExample>) -> (r: Vec<CorpusExample>)
    ensures
        example_views(r@) == example_views(examples@),
{
    let mut out: Vec<CorpusExample> = Vec::new();
    for i in 0..examples.len()
        invariant
            example_views(out@) =~= example_views(examples@).take(i as int),
    {
        let e = copy_example(&examples[i]);
        proof {
            lemma_map_push(out@, e, |e: CorpusExample| e@);
        }
        out.push(e);
    }
    out
}

/// The translation of an example contains `<em>{tag}</em>` case-insensitively: its lower-cased
/// text contains `<em>`, the lower-cased tag and `</em>`, one after the other.
pub open spec fn tagged_with(e: CorpusExampleView, tag: Seq<char>) -> bool {
    has_substring(lowercase_of(e.english), "<em>"@ + lowercase_of(tag) + "</em>"@)
}

/// The examples whose translation contains `<em>{tag}</em>` (case-insensitive), in order.
pub open spec fn examples_tagged(examples: Seq<CorpusExampleView>, tag: Seq<char>) -> Seq<CorpusExampleView> {
    examples.filter(|e: CorpusExampleView| tagged_with(e, tag))
}

/// Filters corpus examples to only those whose translation text contains
/// `<em>{tag}</em>` (case-insensitive).
pub fn filter_examples(examples: &[CorpusExample], tag: &str) -> (r: Vec<CorpusExample>)
    ensures
        example_views(r@) == examples_tagged(example_views(examples@), tag@),
        selects(
            example_views(r@),
            example_views(examples@),
            |e: CorpusExampleView| has_substring(lowercase_of(e.english), "<em>"@ + lowercase_of(tag@) + "</em>"@),
        ),
{
    proof {
        law_filter_keeps_highlighted_tag(example_views(examples@), tag@);
    }
    let mut needle = "<em>".to_owned();
    let tag_lower = lowercase(tag);
    needle.append(tag_lower.as_str());
    needle.append("</em>");
    let ghost ev = example_views(examples@);
    let ghost p = |e: CorpusExampleView| tagged_with(e, tag@);
    let mut out: Vec<CorpusExample> = Vec::new();
    for i in 0..examples.len()
        invariant
            ev == example_views(examples@),
            needle@ == "<em>"@ + lowercase_of(tag@) + "</em>"@,
            p == (|e: CorpusExampleView| tagged_with(e, tag@)),
            example_views(out@) == ev.take(i as int).filter(p),
    {
        let text = lowercase(examples[i].english.as_str());
        let keep = contains(text.as_str(), needle.as_str());
        assert(ev[i as int] == examples@[i as int]@);
        assert(keep == p(ev[i as int]));
        assert(ev.take(i + 1) =~= ev.take(i as int).push(ev[i as int]));
        proof {
            ev.take(i as int).lemma_filter_push(ev[i as int], p);
        }
        if keep {
            let e = copy_example(&examples[i]);
            proof {
                lemma_map_push(out@, e, |e: CorpusExample| e@);
            }
            out.push(e);
        }
    }
    assert(ev.take(examples@.len() as int) =~= ev);
    out
}

// ---------------------------------------------------------------------------
// Filter tags
// ---------------------------------------------------------------------------

/// No two tags of `tags` have the same label.
pub open spec fn distinct_labels(tags: Seq<FilterTag>) -> bool {
    forall|a: int, b: int| 0 <= a < b < tags.len() ==> tags[a].label@ != tags[b].label@
}

/// A tag counts exactly the examples that highlight its label, and at least one.
pub open spec fn counts_examples(t: FilterTag, examples: Seq<CorpusExampleView>) -> bool {
    t.count == label_count(examples, t.label@) && t.count > 0
}

/// The index of a tag with label `label`, if any.
fn find_label(tags: &Vec<FilterTag>, label: &String) -> (r: Option<usize>)
    ensures
        r matches Some(k) ==> k < tags@.len() && tags@[k as int].label@ == label@,
        r is None ==> !lists_label(tags@, label@),
{
    for k in 0..tags.len()
        invariant
            forall|m: int| 0 <= m < k ==> tags@[m].label@ != label@,
    {
        if tags[k].label == *label {
            return Some(k);
        }
    }
    None
}

/// One tag per highlighted label of the examples, with the number of examples that
/// highlight it; labels in order of first appearance.
fn count_labels(examples: &[CorpusExample]) -> (tags: Vec<FilterTag>)
    ensures
        distinct_labels(tags@),
        forall|k: int| 0 <= k < tags@.len() ==> counts_examples(#[trigger] tags@[k], example_views(examples@)),
        forall|l: Seq<char>| label_count(example_views(examples@), l) > 0 ==> lists_label(tags@, l),
{
    let ghost ev = example_views(examples@);
    let mut tags: Vec<FilterTag> = Vec::new();
    for i in 0..examples.len()
        invariant
            ev == example_views(examples@),
            distinct_labels(tags@),
            forall|k: int| 0 <= k < tags@.len() ==> counts_examples(#[trigger] tags@[k], ev.take(i as int)),
            forall|l: Seq<char>| label_count(ev.take(i as int), l) > 0 ==> lists_label(tags@, l),
    {
        let labels = em_label_list(examples[i].english.as_str());
        let ghost lv = string_views(labels@);
        let ghost before = ev.take(i as int);
        assert(ev[i as int] == examples@[i as int]@);
        let mut seen: Vec<String> = Vec::new();
        for j in 0..labels.len()
            invariant
                i < examples.len(),
                ev == example_views(examples@),
                before == ev.take(i as int),
                lv == string_views(labels@),
                lv == em_labels(ev[i as int].english),
                forall|x: Seq<char>| string_views(seen@).contains(x) <==> lv.take(j as int).contains(x),
                distinct_labels(tags@),
                forall|k: int| 0 <= k < tags@.len() ==> (#[trigger] tags@[k]).count == label_count(before, tags@[k].label@)
                    + if string_views(seen@).contains(tags@[k].label@) { 1nat } else { 0nat },
                forall|k: int| 0 <= k < tags@.len() ==> (#[trigger] tags@[k]).count > 0,
                forall|l: Seq<char>| label_count(before, l) > 0 || string_views(seen@).contains(l)
                    ==> lists_label(tags@, l),
        {
            let x = &labels[j];
            assert(lv[j as int] == x@);
            let ghost cur = lv.take(j as int);
            let ghost nxt = lv.take(j + 1);
            assert(nxt =~= cur.push(x@));
            assert forall|z: Seq<char>| nxt.contains(z) <==> cur.contains(z) || z == x@ by {
                lemma_push_contains(cur, x@, z);
            }
            let ghost old_seen = string_views(seen@);
            let ghost old_tags = tags@;
            if !holds_string(&seen, x) {
                match find_label(&tags, x) {
                    Some(k) => {
                        proof {
                            lemma_label_count_le(before, x@);
                            assert(!old_seen.contains(x@));
                            assert(before.len() == i);
                            assert(old_tags[k as int].count == label_count(before, x@));
                            assert(old_tags[k as int].count <= i);
                        }
                        let c = tags[k].count;
                        assert(c <= i);
                        let t = FilterTag { label: tags[k].label.clone(), count: c + 1 };
                        tags.set(k, t);
                        assert forall|m: int| 0 <= m < tags@.len() && m != k implies tags@[m] == old_tags[m]
                            && old_tags[m].label@ != x@ by {
                            if m < k {
                                assert(old_tags[m].label@ != old_tags[k as int].label@);
                            } else {
                                assert(old_tags[k as int].label@ != old_tags[m].label@);
                            }
                        }
                        assert forall|l: Seq<char>| lists_label(old_tags, l) implies lists_label(tags@, l) by {
                            let w = choose|w: int| 0 <= w < old_tags.len() && (#[trigger] old_tags[w]).label@ == l;
                            assert(tags@[w].label@ == l);
                        }
                        assert(tags@[k as int].label@ == x@);
                        assert(lists_label(tags@, x@));
                    },
                    None => {
                        proof {
                            if label_count(before, x@) > 0 {
                                assert(lists_label(tags@, x@));
                            }
                        }
                        let t = FilterTag { label: x.clone(), count: 1 };
                        tags.push(t);
                        assert forall|m: int| 0 <= m < old_tags.len() implies tags@[m] == old_tags[m] by {}
                        assert forall|l: Seq<char>| lists_label(old_tags, l) implies lists_label(tags@, l) by {
                            let w = choose|w: int| 0 <= w < old_tags.len() && (#[trigger] old_tags[w]).label@ == l;
                            assert(tags@[w].label@ == l);
                        }
                        assert(tags@[old_tags.len() as int].label@ == x@);
                        assert(lists_label(tags@, x@));
                    },
                }
                let y = x.clone();
                proof {
                    lemma_map_push(seen@, y, |s: String| s@);
                }
                seen.push(y);
                assert(string_views(seen@) == old_seen.push(x@));
                assert forall|z: Seq<char>| string_views(seen@).contains(z) <==> old_seen.contains(z) || z == x@ by {
                    lemma_push_contains(old_seen, x@, z);
                }
                assert forall|l: Seq<char>| label_count(before, l) > 0 || string_views(seen@).contains(l)
                    implies lists_label(tags@, l) by {
                    if l != x@ {
                        assert(lists_label(old_tags, l));
                    }
                }
            }
            assert forall|z: Seq<char>| string_views(seen@).contains(z) <==> nxt.contains(z) by {
                lemma_push_contains(old_seen, x@, z);
            }
        }
        assert(lv.take(labels@.len() as int) =~= lv);
        assert forall|k: int| 0 <= k < tags@.len() implies counts_examples(#[trigger] tags@[k], ev.take(i + 1)) by {
            lemma_label_count_step(ev, i as int, tags@[k].label@);
        }
        assert forall|l: Seq<char>| label_count(ev.take(i + 1), l) > 0 implies lists_label(tags@, l) by {
            lemma_label_count_step(ev, i as int, l);
        }
    }
    assert(ev.take(examples@.len() as int) =~= ev);
    tags
}


/// The index of the first tag with the largest count.
fn index_of_max_count(tags: &Vec<FilterTag>) -> (r: usize)
    requires
        tags@.len() > 0,
    ensures
        r < tags@.len(),
        forall|m: int| 0 <= m < tags@.len() ==> tags@[r as int].count >= (#[trigger] tags@[m]).count,
{
    let mut best: usize = 0;
    for m in 1..tags.len()
        invariant
            best < m <= tags@.len(),
            forall|q: int| 0 <= q < m ==> tags@[best as int].count >= (#[trigger] tags@[q]).count,
    {
        if tags[m].count > tags[best].count {
            best = m;
        }
    }
    best
}

/// The number of tags that `extract_filter_tags` returns at most.
pub const MAX_FILTER_TAGS: usize = 5;

/// `tags` are the filter tags of `examples`: at most `MAX_FILTER_TAGS` tags with distinct
/// labels, each counting the examples whose translation highlights its label (at least one),
/// sorted by count descending; a highlighted label that is left out counts no more examples
/// than the last tag, and is left out only when `MAX_FILTER_TAGS` tags are returned.
pub open spec fn is_top_tags(tags: Seq<FilterTag>, examples: Seq<CorpusExampleView>) -> bool {
    &&& tags.len() <= MAX_FILTER_TAGS
    &&& distinct_labels(tags)
    &&& forall|k: int| 0 <= k < tags.len() ==> counts_examples(#[trigger] tags[k], examples)
    &&& forall|a: int, b: int| 0 <= a < b < tags.len() ==> tags[a].count >= tags[b].count
    &&& forall|l: Seq<char>|
        label_count(examples, l) > 0 && !lists_label(tags, l) ==> tags.len() == MAX_FILTER_TAGS
            && label_count(examples, l) <= tags[tags.len() - 1].count
}

/// Extracts filter tags from corpus examples by counting the text inside `<em>` tags
/// in the English (translation) text. Returns tags sorted by count descending.
///
/// Each tag counts the examples whose translation highlights its label (in lower case), at
/// most once per example. At most `MAX_FILTER_TAGS` tags are returned, those with the largest
/// counts; among tags of equal count the order is not stated.
pub fn extract_filter_tags(examples: &[CorpusExample]) -> (r: Vec<FilterTag>)
    ensures
        is_top_tags(r@, example_views(examples@)),
{
    let ghost ev = example_views(examples@);
    let mut remaining = count_labels(examples);
    let mut result: Vec<FilterTag> = Vec::new();
    while result.len() < MAX_FILTER_TAGS && remaining.len() > 0
        invariant
            ev == example_views(examples@),
            result@.len() <= MAX_FILTER_TAGS,
            distinct_labels(result@),
            distinct_labels(remaining@),
            forall|a: int, b: int| 0 <= a < result@.len() && 0 <= b < remaining@.len() ==>
                result@[a].label@ != remaining@[b].label@,
            forall|k: int| 0 <= k < result@.len() ==> counts_examples(#[trigger] result@[k], ev),
            forall|k: int| 0 <= k < remaining@.len() ==> counts_examples(#[trigger] remaining@[k], ev),
            forall|a: int, b: int| 0 <= a < b < result@.len() ==> result@[a].count >= result@[b].count,
            forall|a: int, b: int| 0 <= a < result@.len() && 0 <= b < remaining@.len() ==>
                result@[a].count >= remaining@[b].count,
            forall|l: Seq<char>| label_count(ev, l) > 0 ==> lists_label(result@, l) || lists_label(remaining@, l),
        decreases remaining@.len(),
    {
        let best = index_of_max_count(&remaining);
        let ghost old_rem = remaining@;
        let ghost old_res = result@;
        let t = remaining.remove(best);
        result.push(t);
        assert forall|b: int| 0 <= b < remaining@.len() implies #[trigger] remaining@[b] == (if b < best {
            old_rem[b]
        } else {
            old_rem[b + 1]
        }) by {}
        assert forall|a: int, b: int| 0 <= a < b < remaining@.len() implies remaining@[a].label@
            != remaining@[b].label@ by {
            if b < best {
            } else if a < best {
                assert(old_rem[a].label@ != old_rem[b + 1].label@);
            } else {
                assert(old_rem[a + 1].label@ != old_rem[b + 1].label@);
            }
        }
        assert forall|a: int, b: int| 0 <= a < result@.len() && 0 <= b < remaining@.len() implies
            result@[a].label@ != remaining@[b].label@ by {
            let ob = if b < best { b } else { b + 1 };
            assert(remaining@[b] == old_rem[ob]);
            if a < old_res.len() {
                assert(old_res[a].label@ != old_rem[ob].label@);
            } else {
                if best < ob {
                    assert(old_rem[best as int].label@ != old_rem[ob].label@);
                } else {
                    assert(old_rem[ob].label@ != old_rem[best as int].label@);
                }
            }
        }
        assert forall|a: int, b: int| 0 <= a < b < result@.len() implies result@[a].label@
            != result@[b].label@ by {
            if b == old_res.len() {
                assert(old_res[a].label@ != old_rem[best as int].label@);
            }
        }
        assert forall|k: int| 0 <= k < remaining@.len() implies counts_examples(#[trigger] remaining@[k], ev) by {
            let ok = if k < best { k } else { k + 1 };
            assert(remaining@[k] == old_rem[ok]);
        }
        assert forall|a: int, b: int| 0 <= a < result@.len() && 0 <= b < remaining@.len() implies
            result@[a].count >= remaining@[b].count by {
            let ob = if b < best { b } else { b + 1 };
            assert(remaining@[b] == old_rem[ob]);
            if a < old_res.len() {
                assert(old_res[a].count >= old_rem[ob].count);
            }
        }
        assert forall|a: int, b: int| 0 <= a < b < result@.len() implies result@[a].count >= result@[b].count by {
            if b == old_res.len() {
                assert(old_res[a].count >= old_rem[best as int].count);
            }
        }
        assert forall|l: Seq<char>| label_count(ev, l) > 0 implies lists_label(result@, l) || lists_label(
            remaining@,
            l,
        ) by {
            if lists_label(old_res, l) {
                let w = choose|w: int| 0 <= w < old_res.len() && (#[trigger] old_res[w]).label@ == l;
                assert(result@[w].label@ == l);
            } else {
                let w = choose|w: int| 0 <= w < old_rem.len() && (#[trigger] old_rem[w]).label@ == l;
                if w == best {
                    assert(result@[old_res.len() as int].label@ == l);
                } else if w < best {
                    assert(remaining@[w].label@ == l);
                } else {
                    assert(remaining@[w - 1].label@ == l);
                }
            }
        }
    }
    assert forall|l: Seq<char>|
        label_count(ev, l) > 0 && !lists_label(result@, l) implies result@.len() == MAX_FILTER_TAGS
            && label_count(ev, l) <= result@[result@.len() - 1].count by {
        let w = choose|w: int| 0 <= w < remaining@.len() && (#[trigger] remaining@[w]).label@ == l;
        assert(counts_examples(remaining@[w], ev));
        assert(result@[result@.len() - 1].count >= remaining@[w].count);
    }
    result
}


/// For the example `e`, the words that `<em>(.*?)</em>` captures in its translation (which the
/// tags count) and the containment of `<em>{label}</em>` in its lower-cased translation (which
/// filtering tests) agree on `label`: a captured word, lower-cased, is `label` exactly when the
/// lower-cased translation contains `<em>`, the lower-cased label and `</em>`.
pub open spec fn highlight_agrees(e: CorpusExampleView, label: Seq<char>) -> bool {
    (match regex_group1(EM_PATTERN@, e.english) {
        Some(words) => exists|k: int| 0 <= k < words.len() && #[trigger] lowercase_of(words[k]) == label,
        None => false,
    }) <==> has_substring(lowercase_of(e.english), "<em>"@ + lowercase_of(label) + "</em>"@)
}

/// Law: filtering the examples by the label of a tag (`filter_examples`) keeps as many
/// examples as the tag counts (`extract_filter_tags`), wherever the captured words and the
/// containment of `<em>{label}</em>` agree on the label. They can disagree: in
/// `<em>x <em>eat</em></em>` the captured word is `x <em>eat`, yet the text contains
/// `<em>eat</em>`; and lower-casing a whole text need not lower-case its words as it does them
/// alone.
pub proof fn law_filter_keeps_tag_count(examples: Seq<CorpusExampleView>, label: Seq<char>)
    requires
        forall|i: int| 0 <= i < examples.len() ==> highlight_agrees(#[trigger] examples[i], label),
    ensures
        examples_tagged(examples, label).len() == label_count(examples, label),
    decreases examples.len(),
{
    if examples.len() > 0 {
        let p = |e: CorpusExampleView| tagged_with(e, label);
        let rest = examples.drop_last();
        assert forall|i: int| 0 <= i < rest.len() implies highlight_agrees(#[trigger] rest[i], label) by {
            assert(rest[i] == examples[i]);
        }
        law_filter_keeps_tag_count(rest, label);
        assert(highlight_agrees(examples[examples.len() - 1], label));
        lemma_has_label_words(examples.last(), label);
        assert(rest.push(examples.last()) =~= examples);
        rest.lemma_filter_push(examples.last(), p);
    } else {
        reveal(Seq::filter);
    }
}

/// Law: filtering keeps the order of the examples and only ever drops some of them, and
/// filtering twice by the same tag gives what filtering once gives.
pub proof fn law_filter_is_idempotent(examples: Seq<CorpusExampleView>, tag: Seq<char>)
    ensures
        examples_tagged(examples, tag).len() <= examples.len(),
        examples_tagged(examples_tagged(examples, tag), tag) == examples_tagged(examples, tag),
    decreases examples.len(),
{
    let p = |e: CorpusExampleView| tagged_with(e, tag);
    examples.lemma_filter_len(p);
    if examples.len() > 0 {
        law_filter_is_idempotent(examples.drop_last(), tag);
        assert(examples.drop_last().push(examples.last()) =~= examples);
        examples.drop_last().lemma_filter_push(examples.last(), p);
        let f = examples_tagged(examples.drop_last(), tag);
        f.lemma_filter_push(examples.last(), p);
    } else {
        reveal(Seq::filter);
    }
}

/// Law: filtering keeps exactly the examples whose lower-cased translation contains `<em>`,
/// the lower-cased tag and `</em>`, one after the other, in their order.
pub proof fn law_filter_keeps_highlighted_tag(examples: Seq<CorpusExampleView>, tag: Seq<char>)
    ensures
        selects(
            examples_tagged(examples, tag),
            examples,
            |e: CorpusExampleView| has_substring(lowercase_of(e.english), "<em>"@ + lowercase_of(tag) + "</em>"@),
        ),
{
    let p = |e: CorpusExampleView| tagged_with(e, tag);
    let q = |e: CorpusExampleView| has_substring(lowercase_of(e.english), "<em>"@ + lowercase_of(tag) + "</em>"@);
    lemma_filter_selects(examples, p);
    assert(p =~= q);
}

/// An example highlights `label` exactly when a word that `<em>(.*?)</em>` captures in its
/// translation is `label` once lower-cased.
proof fn lemma_has_label_words(e: CorpusExampleView, label: Seq<char>)
    ensures
        has_label(e, label) <==> match regex_group1(EM_PATTERN@, e.english) {
            Some(words) => exists|k: int| 0 <= k < words.len() && #[trigger] lowercase_of(words[k]) == label,
            None => false,
        },
{
    match regex_group1(EM_PATTERN@, e.english) {
        Some(words) => {
            let m = words.map_values(|w: Seq<char>| lowercase_of(w));
            if m.contains(label) {
                let k = choose|k: int| 0 <= k < m.len() && m[k] == label;
                assert(lowercase_of(words[k]) == label);
            }
            if exists|k: int| 0 <= k < words.len() && #[trigger] lowercase_of(words[k]) == label {
                let k = choose|k: int| 0 <= k < words.len() && #[trigger] lowercase_of(words[k]) == label;
                assert(m[k] == label);
            }
        },
        None => {},
    }
}

/// Law: the count of a label is the number of examples of which a word that `<em>(.*?)</em>`
/// captures in the translation (`english`) is the label once lower-cased.
pub proof fn law_label_count_counts_translations(examples: Seq<CorpusExampleView>, label: Seq<char>)
    ensures
        label_count(examples, label) == examples.filter(
            |e: CorpusExampleView| match regex_group1(EM_PATTERN@, e.english) {
                Some(words) => exists|k: int| 0 <= k < words.len() && #[trigger] lowercase_of(words[k]) == label,
                None => false,
            },
        ).len(),
    decreases examples.len(),
{
    reveal(Seq::filter);
    if examples.len() > 0 {
        law_label_count_counts_translations(examples.drop_last(), label);
        lemma_has_label_words(examples.last(), label);
    }
}

/// Law: the counts of the labels, and so the filter tags, depend on the translations of the
/// examples alone: two lists of examples with the same translations in the same order give
/// every label the same count, and the same lists of tags are their filter tags.
pub proof fn law_tags_ignore_sentences(a: Seq<CorpusExampleView>, b: Seq<CorpusExampleView>)
    requires
        a.len() == b.len(),
        forall|i: int| 0 <= i < a.len() ==> (#[trigger] a[i]).english == b[i].english,
    ensures
        forall|l: Seq<char>| label_count(a, l) == #[trigger] label_count(b, l),
        forall|tags: Seq<FilterTag>| is_top_tags(tags, a) <==> #[trigger] is_top_tags(tags, b),
{
    assert forall|l: Seq<char>| label_count(a, l) == #[trigger] label_count(b, l) by {
        lemma_label_count_same_translations(a, b, l);
    }
}

proof fn lemma_label_count_same_translations(a: Seq<CorpusExampleView>, b: Seq<CorpusExampleView>, l: Seq<char>)
    requires
        a.len() == b.len(),
        forall|i: int| 0 <= i < a.len() ==> (#[trigger] a[i]).english == b[i].english,
    ensures
        label_count(a, l) == label_count(b, l),
    decreases a.len(),
{
    if a.len() > 0 {
        let (ra, rb) = (a.drop_last(), b.drop_last());
        assert forall|i: int| 0 <= i < ra.len() implies (#[trigger] ra[i]).english == rb[i].english by {
            assert(a[i].english == b[i].english);
        }
        lemma_label_count_same_translations(ra, rb, l);
        assert(a.last().english == b.last().english);
    }
}

/// Some example of `examples` highlights `label` wherever the label counts an example.
proof fn lemma_counted_label_is_highlighted(examples: Seq<CorpusExampleView>, label: Seq<char>)
    requires
        label_count(examples, label) > 0,
    ensures
        exists|i: int| 0 <= i < examples.len() && has_label(#[trigger] examples[i], label),
    decreases examples.len(),
{
    if has_label(examples.last(), label) {
        assert(has_label(examples[examples.len() - 1], label));
    } else {
        lemma_counted_label_is_highlighted(examples.drop_last(), label);
        let i = choose|i: int| 0 <= i < examples.len() - 1 && has_label(#[trigger] examples.drop_last()[i], label);
        assert(examples.drop_last()[i] == examples[i]);
    }
}

/// Law: the label of each filter tag `tags[t]` is a word that `<em>(.*?)</em>` captures in the
/// translation (`english`) of one of the examples, lower-cased.
pub proof fn law_tag_labels_are_highlighted(tags: Seq<FilterTag>, examples: Seq<CorpusExampleView>, t: int)
    requires
        is_top_tags(tags, examples),
        0 <= t < tags.len(),
    ensures
        exists|i: int|
            #![trigger examples[i]]
            0 <= i < examples.len() && (regex_group1(EM_PATTERN@, examples[i].english) matches Some(words)
                && exists|k: int| 0 <= k < words.len() && #[trigger] lowercase_of(words[k]) == tags[t].label@),
{
    assert(counts_examples(tags[t], examples));
    lemma_counted_label_is_highlighted(examples, tags[t].label@);
    let i = choose|i: int| 0 <= i < examples.len() && has_label(#[trigger] examples[i], tags[t].label@);
    lemma_has_label_words(examples[i], tags[t].label@);
}

// ---------------------------------------------------------------------------
// Errors as text
// ---------------------------------------------------------------------------

/// The text that describes an error.
pub open spec fn error_message(e: SdictError) -> Seq<char> {
    match e {
        SdictError::Fetch(m) => "Failed to fetch from SpanishDict: "@ + m@,
        SdictError::Parse(m) => "Failed to parse SpanishDict data: "@ + m@,
        SdictError::NotFound(t) => "No results for '"@ + t@ + "'."@,
    }
}

impl SdictError {
    /// The text that describes the error.
    pub fn message(&self) -> (r: String)
        ensures
            r@ == error_message(*self),
    {
        match self {
            SdictError::Fetch(e) => {
                let mut s = "Failed to fetch from SpanishDict: ".to_owned();
                s.append(e.as_str());
                s
            },
            SdictError::Parse(m) => {
                let mut s = "Failed to parse SpanishDict data: ".to_owned();
                s.append(m.as_str());
                s
            },
            SdictError::NotFound(t) => {
                let mut s = "No results for '".to_owned();
                s.append(t.as_str());
                s.append("'.");
                s
            },
        }
    }
}

// ---------------------------------------------------------------------------
// Looking a term up
// ---------------------------------------------------------------------------

pub struct TermView {
    pub query: Seq<char>,
    pub headword: Seq<char>,
    pub quick_definition: Option<Seq<char>>,
    pub headword_groups: Seq<HeadwordGroupView>,
    pub examples: Seq<CorpusExampleView>,
    pub lang_from: Seq<char>,
    pub has_both_langs: bool,
}

impl View for Term {
    type V = TermView;

    open spec fn view(&self) -> TermView {
        TermView {
            query: self.query@,
            headword: self.headword@,
            quick_definition: opt_text(self.quick_definition),
            headword_groups: group_views(self.headword_groups@),
            examples: example_views(self.examples@),
            lang_from: self.lang_from@,
            has_both_langs: self.has_both_langs,
        }
    }
}

/// The address of the definitions page of `term`, with the language of the term where the
/// request names one.
pub fn definitions_url(base_url: &str, term: &str, lang_from: Option<&str>) -> (r: String)
    ensures
        r@ == base_url@ + "/translate/"@ + term@ + match lang_from {
            Some(l) => "?langFrom="@ + l@,
            None => Seq::<char>::empty(),
        },
{
    let mut url = base_url.to_owned();
    url.append("/translate/");
    url.append(term);
    match lang_from {
        Some(l) => {
            url.append("?langFrom=");
            url.append(l);
        },
        None => {
            assert(url@ + Seq::<char>::empty() =~= url@);
        },
    }
    url
}

/// What a fetched definitions page says of `term`: the parsed definitions, `NotFound` where
/// the page data has no headword group, or the error of the fetch or of the page data.
pub fn read_definitions(term: &str, page: Result<String, SdictError>) -> (r: Result<ParsedDefinitions, SdictError>)
    ensures
        page matches Err(e) ==> r == Err::<ParsedDefinitions, SdictError>(e),
        page matches Ok(html) ==> match page_data(html@) {
            None => (r matches Err(SdictError::Parse(m)) && data_error_text(html@, m@)),
            Some(data) => if definitions_of(data).headword_groups.len() == 0 {
                (r matches Err(SdictError::NotFound(t)) && t@ == term@)
            } else {
                (r matches Ok(p) && p@ == definitions_of(data))
            },
        },
{
    let html = match page {
        Ok(html) => html,
        Err(e) => {
            return Err(e);
        },
    };
    let data = match extract_sd_data(html.as_str()) {
        Ok(data) => data,
        Err(e) => {
            return Err(e);
        },
    };
    let parsed = parse_definitions(&data);
    if parsed.headword_groups.is_empty() {
        return Err(SdictError::NotFound(term.to_owned()));
    }
    Ok(parsed)
}

/// The language of the search term: the one the definitions give, else `es`.
pub open spec fn lang_of(p: ParsedDefinitionsView) -> Seq<char> {
    match p.lang_from {
        Some(l) => l,
        None => "es"@,
    }
}

/// The language of the search term that the parsed definitions give, else `es`.
pub fn search_language(parsed: &ParsedDefinitions) -> (r: String)
    ensures
        r@ == lang_of(parsed@),
{
    match &parsed.lang_from {
        Some(l) => l.clone(),
        None => "es".to_owned(),
    }
}

/// The address of the examples page of `term` in the language `lang`.
pub fn examples_url(base_url: &str, term: &str, lang: &str) -> (r: String)
    ensures
        r@ == base_url@ + "/examples/"@ + term@ + "?lang="@ + lang@,
{
    let mut url = base_url.to_owned();
    url.append("/examples/");
    url.append(term);
    url.append("?lang=");
    url.append(lang);
    url
}

/// The corpus examples that a fetched examples page gives for the language `lang` of the
/// search term: none where the fetch or the page data failed.
pub open spec fn page_examples(page: Result<String, SdictError>, lang: Seq<char>) -> Seq<CorpusExampleView> {
    match page {
        Ok(html) => match page_data(html@) {
            Some(data) => corpus_examples_of(data, lang),
            None => seq![],
        },
        Err(_) => seq![],
    }
}

/// Law: the examples of a term are those that the page data of its fetched examples page gives
/// for the language `lang` alone, one for each sentence under that language's key that gives
/// one, in order (`law_examples_of_language`); none where the fetch failed or the page holds no
/// page data.
pub proof fn law_page_examples(page: Result<String, SdictError>, lang: Seq<char>)
    ensures
        match page {
            Ok(html) => match page_data(html@) {
                Some(data) => {
                    let key = if lang == "en"@ {
                        "explorationResponseFromServerEn"@
                    } else {
                        "explorationResponseFromServerEs"@
                    };
                    picks(
                        page_examples(page, lang),
                        items_of(get_opt(get_opt(get_opt(spec_get(data, key), "data"@), "data"@), "sentences"@)),
                        |v: JsonValue| corpus_example_of(v),
                    )
                },
                None => page_examples(page, lang).len() == 0,
            },
            Err(_) => page_examples(page, lang).len() == 0,
        },
{
    match page {
        Ok(html) => match page_data(html@) {
            Some(data) => law_examples_of_language(data, lang),
            None => {},
        },
        Err(_) => {},
    }
}

/// The term that a lookup gives, from its definitions and its fetched examples page. The
/// examples are those of the search language (`lang_of`): the English-direction sentences of
/// the page for an English term, the Spanish-direction ones otherwise.
pub fn assemble_term(term: &str, parsed: ParsedDefinitions, examples_page: Result<String, SdictError>) -> (r: Term)
    ensures
        r@ == (TermView {
            query: term@,
            headword: match parsed@.headword {
                Some(h) => h,
                None => term@,
            },
            quick_definition: parsed@.quick_definition,
            headword_groups: parsed@.headword_groups,
            examples: page_examples(examples_page, lang_of(parsed@)),
            lang_from: lang_of(parsed@),
            has_both_langs: parsed@.has_both_langs,
        }),
        match examples_page {
            Ok(html) => match page_data(html@) {
                Some(data) => picks(
                    r@.examples,
                    items_of(
                        get_opt(
                            get_opt(
                                get_opt(
                                    spec_get(
                                        data,
                                        if parsed@.lang_from == Some("en"@) {
                                            "explorationResponseFromServerEn"@
                                        } else {
                                            "explorationResponseFromServerEs"@
                                        },
                                    ),
                                    "data"@,
                                ),
                                "data"@,
                            ),
                            "sentences"@,
                        ),
                    ),
                    |v: JsonValue| corpus_example_of(v),
                ),
                None => r@.examples.len() == 0,
            },
            Err(_) => r@.examples.len() == 0,
        },
{
    let ghost page = examples_page;
    let ghost pv = parsed@;
    proof {
        reveal_strlit("es");
        reveal_strlit("en");
        assert("es"@ != "en"@) by {
            assert("es"@[1] != "en"@[1]);
        }
        assert(lang_of(pv) == "en"@ <==> pv.lang_from == Some("en"@));
        law_page_examples(page, lang_of(pv));
    }
    let lang_from = search_language(&parsed);
    let examples = match examples_page {
        Ok(html) => match extract_sd_data(html.as_str()) {
            Ok(data) => parse_examples_for(&data, lang_from.as_str()),
            Err(_) => Vec::new(),
        },
        Err(_) => Vec::new(),
    };
    proof {
        if examples@.len() == 0 {
            assert(example_views(examples@) =~= seq![]);
        }
    }
    let headword = match parsed.headword {
        Some(h) => h,
        None => term.to_owned(),
    };
    Term {
        query: term.to_owned(),
        headword,
        quick_definition: parsed.quick_definition,
        headword_groups: parsed.headword_groups,
        examples,
        lang_from,
        has_both_langs: parsed.has_both_langs,
    }
}

} // verus!
