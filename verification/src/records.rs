use crate::model::{
    Cases, CasesModel, EntryModel, LocModel, SubModel, Variations, VariationsModel,
    XcLocalization, XcStringEntry, XcStringsFile, XcSubstitution, cases_view, loc_view,
    strings_view, subs_view, text_view, variations_view,
};
use crate::languages::texts;
use crate::ordered_map::OrderedMap;
use crate::text::{is_substring, lowercase, str_contains, to_lowercase};
use crate::update::keys_of;
use crate::value::{
    TranslationValue, ValueCasesModel, copy_text, lemma_prefix_lacks, value_cases_view,
    value_of_loc, value_view, values_of_cases,
};
use vstd::prelude::*;

verus! {

/// One entry of a catalog as it is listed: its key, its notes and what each
/// language holds for it.
#[derive(Debug)]
pub struct TranslationRecord {
    pub key: String,
    pub comment: Option<String>,
    pub extraction_state: Option<String>,
    pub should_translate: Option<bool>,
    pub translations: OrderedMap<TranslationValue>,
}

/// One entry of a catalog in short: its key, its comment, its languages, and
/// whether any of them has variations or substitutions.
#[derive(Debug, Clone)]
pub struct TranslationSummary {
    pub key: String,
    pub comment: Option<String>,
    pub languages: Vec<String>,
    pub has_variations: bool,
}

/// The mathematical value of a [`TranslationRecord`].
pub struct RecordModel {
    pub key: Seq<char>,
    pub comment: Option<Seq<char>>,
    pub extraction_state: Option<Seq<char>>,
    pub should_translate: Option<bool>,
    pub translations: ValueCasesModel,
}

/// The mathematical value of a [`TranslationSummary`].
pub struct SummaryModel {
    pub key: Seq<char>,
    pub comment: Option<Seq<char>>,
    pub languages: Seq<Seq<char>>,
    pub has_variations: bool,
}

impl View for TranslationRecord {
    type V = RecordModel;

    open spec fn view(&self) -> RecordModel {
        RecordModel {
            key: self.key@,
            comment: text_view(self.comment),
            extraction_state: text_view(self.extraction_state),
            should_translate: self.should_translate,
            translations: value_cases_view(self.translations),
        }
    }
}

impl View for TranslationSummary {
    type V = SummaryModel;

    open spec fn view(&self) -> SummaryModel {
        SummaryModel {
            key: self.key@,
            comment: text_view(self.comment),
            languages: texts(self.languages@),
            has_variations: self.has_variations,
        }
    }
}

/// The models of a list of records.
pub open spec fn records_view(v: Seq<TranslationRecord>) -> Seq<RecordModel> {
    Seq::new(v.len(), |i: int| v[i]@)
}

/// The models of a list of summaries.
pub open spec fn summaries_view(v: Seq<TranslationSummary>) -> Seq<SummaryModel> {
    Seq::new(v.len(), |i: int| v[i]@)
}

/// Whether a text, in lower case, contains the query.
pub open spec fn text_contains(text: Seq<char>, query: Seq<char>) -> bool {
    is_substring(query, lowercase(text))
}

/// Whether the value of a string unit contains the query.
pub open spec fn unit_contains(u: Option<crate::model::UnitModel>, query: Seq<char>) -> bool {
    match u {
        Some(x) => match x.value {
            Some(v) => text_contains(v, query),
            None => false,
        },
        None => false,
    }
}

/// Whether a localization contains the query: in its value, or in any
/// localization of its variations or of the variations of its substitutions,
/// or in the value of a substitution.
pub open spec fn loc_contains(l: LocModel, query: Seq<char>) -> bool
    decreases l, 0nat,
{
    unit_contains(l.unit, query) || variations_contain(l.variations, query) || subs_contain(
        l.substitutions,
        query,
    )
}

/// Whether a substitution contains the query.
pub open spec fn sub_contains(s: SubModel, query: Seq<char>) -> bool
    decreases s, 0nat,
{
    unit_contains(s.unit, query) || variations_contain(s.variations, query)
}

/// Whether any of a list of localizations contains the query.
pub open spec fn cases_contain(cases: CasesModel, query: Seq<char>) -> bool
    decreases cases, 0nat,
{
    if cases.len() == 0 {
        false
    } else {
        cases_contain(cases.drop_last(), query) || loc_contains(cases.last().1, query)
    }
}

/// Whether any case of any selector contains the query.
pub open spec fn variations_contain(vars: VariationsModel, query: Seq<char>) -> bool
    decreases vars, 0nat,
{
    if vars.len() == 0 {
        false
    } else {
        variations_contain(vars.drop_last(), query) || cases_contain(vars.last().1, query)
    }
}

/// Whether any of a list of substitutions contains the query.
pub open spec fn subs_contain(subs: Seq<(Seq<char>, SubModel)>, query: Seq<char>) -> bool
    decreases subs, 0nat,
{
    if subs.len() == 0 {
        false
    } else {
        subs_contain(subs.drop_last(), query) || sub_contains(subs.last().1, query)
    }
}

/// Whether an entry passes a filter: every entry passes where there is none;
/// else its key or one of its translations contains the query.
pub open spec fn entry_matches(key: Seq<char>, e: EntryModel, query: Option<Seq<char>>) -> bool {
    match query {
        Some(q) => text_contains(key, q) || cases_contain(e.localizations, q),
        None => true,
    }
}

/// The query of a filter: the filter in lower case.
pub open spec fn query_of(filter: Option<&str>) -> Option<Seq<char>> {
    match filter {
        Some(f) => Some(lowercase(f@)),
        None => None,
    }
}

/// The record of an entry.
pub open spec fn record_of(key: Seq<char>, e: EntryModel) -> RecordModel {
    RecordModel {
        key,
        comment: e.comment,
        extraction_state: e.extraction_state,
        should_translate: e.should_translate,
        translations: values_of_cases(e.localizations),
    }
}

/// Whether a localization has variations or substitutions.
pub open spec fn loc_varies(l: LocModel) -> bool {
    l.variations.len() > 0 || l.substitutions.len() > 0
}

/// Whether any of a list of localizations has variations or substitutions.
pub open spec fn cases_vary(cases: CasesModel) -> bool {
    exists|i: int| 0 <= i < cases.len() && loc_varies((#[trigger] cases[i]).1)
}

/// The summary of an entry.
pub open spec fn summary_of(key: Seq<char>, e: EntryModel) -> SummaryModel {
    SummaryModel {
        key,
        comment: e.comment,
        languages: keys_of(e.localizations),
        has_variations: cases_vary(e.localizations),
    }
}

/// The records of the entries that pass a filter, in the order of the catalog.
pub open spec fn records_of(strings: Seq<(Seq<char>, EntryModel)>, query: Option<Seq<char>>) -> Seq<
    RecordModel,
>
    decreases strings.len(),
{
    if strings.len() == 0 {
        Seq::empty()
    } else {
        let rest = records_of(strings.drop_last(), query);
        if entry_matches(strings.last().0, strings.last().1, query) {
            rest.push(record_of(strings.last().0, strings.last().1))
        } else {
            rest
        }
    }
}

/// The summaries of the entries that pass a filter, in the order of the catalog.
pub open spec fn summaries_of(strings: Seq<(Seq<char>, EntryModel)>, query: Option<Seq<char>>) -> Seq<
    SummaryModel,
>
    decreases strings.len(),
{
    if strings.len() == 0 {
        Seq::empty()
    } else {
        let rest = summaries_of(strings.drop_last(), query);
        if entry_matches(strings.last().0, strings.last().1, query) {
            rest.push(summary_of(strings.last().0, strings.last().1))
        } else {
            rest
        }
    }
}

fn value_contains(unit: &Option<crate::model::XcStringUnit>, query: &str) -> (r: bool)
    ensures
        r == unit_contains(crate::model::unit_view(*unit), query@),
{
    match unit {
        Some(u) => match &u.value {
            Some(v) => {
                let lowered = to_lowercase(v.as_str());
                str_contains(lowered.as_str(), query)
            },
            None => false,
        },
        None => false,
    }
}

fn any_case_contains(cases: &Cases, query: &str) -> (r: bool)
    ensures
        r == cases_contain(cases_view(*cases), query@),
    decreases *cases,
{
    let ghost all = cases_view(*cases);
    let n = cases.len();
    let mut i: usize = 0;
    assert(all.take(0).len() == 0);
    while i < n
        invariant
            cases.wf(),
            all == cases_view(*cases),
            n == cases.values().len(),
            i <= n,
            !cases_contain(all.take(i as int), query@),
        decreases n - i,
    {
        proof {
            cases.lemma_decreases();
            let next = all.take(i + 1);
            assert(next.drop_last() =~= all.take(i as int));
            assert(next.last() == all[i as int]);
        }
        if localization_contains(cases.value_at(i), query) {
            proof {
                lemma_cases_contain_prefix(all, i + 1, query@);
            }
            return true;
        }
        i += 1;
    }
    assert(all.take(n as int) =~= all);
    false
}

/// What a prefix of the localizations contains, the whole list contains.
pub proof fn lemma_cases_contain_prefix(cases: CasesModel, n: int, query: Seq<char>)
    requires
        0 <= n <= cases.len(),
        cases_contain(cases.take(n), query),
    ensures
        cases_contain(cases, query),
    decreases cases.len() - n,
{
    if n < cases.len() {
        assert(cases.take(n + 1).drop_last() =~= cases.take(n));
        lemma_cases_contain_prefix(cases, n + 1, query);
    } else {
        assert(cases.take(n) =~= cases);
    }
}

/// What a prefix of the selectors contains, the whole list contains.
pub proof fn lemma_variations_contain_prefix(vars: VariationsModel, n: int, query: Seq<char>)
    requires
        0 <= n <= vars.len(),
        variations_contain(vars.take(n), query),
    ensures
        variations_contain(vars, query),
    decreases vars.len() - n,
{
    if n < vars.len() {
        assert(vars.take(n + 1).drop_last() =~= vars.take(n));
        lemma_variations_contain_prefix(vars, n + 1, query);
    } else {
        assert(vars.take(n) =~= vars);
    }
}

/// What a prefix of the substitutions contains, the whole list contains.
pub proof fn lemma_subs_contain_prefix(subs: Seq<(Seq<char>, SubModel)>, n: int, query: Seq<char>)
    requires
        0 <= n <= subs.len(),
        subs_contain(subs.take(n), query),
    ensures
        subs_contain(subs, query),
    decreases subs.len() - n,
{
    if n < subs.len() {
        assert(subs.take(n + 1).drop_last() =~= subs.take(n));
        lemma_subs_contain_prefix(subs, n + 1, query);
    } else {
        assert(subs.take(n) =~= subs);
    }
}

fn any_variation_contains(vars: &Option<Variations>, query: &str) -> (r: bool)
    ensures
        r == variations_contain(crate::codec::opt_variations_view(*vars), query@),
    decreases *vars,
{
    match vars {
        Some(m) => {
            let ghost all = variations_view(*m);
            let n = m.len();
            let mut i: usize = 0;
            assert(all.take(0).len() == 0);
            while i < n
                invariant
                    *vars == Some(*m),
                    m.wf(),
                    all == variations_view(*m),
                    n == m.values().len(),
                    i <= n,
                    !variations_contain(all.take(i as int), query@),
                decreases n - i,
            {
                proof {
                    assert(decreases_to!(*vars => vars->0));
                    m.lemma_decreases();
                    let next = all.take(i + 1);
                    assert(next.drop_last() =~= all.take(i as int));
                    assert(next.last() == all[i as int]);
                }
                if any_case_contains(m.value_at(i), query) {
                    proof {
                        lemma_variations_contain_prefix(all, i + 1, query@);
                    }
                    return true;
                }
                i += 1;
            }
            assert(all.take(n as int) =~= all);
            false
        },
        None => false,
    }
}

/// Whether a localization contains the query: see [`loc_contains`]. The
/// query is expected in lower case.
pub fn localization_contains(loc: &XcLocalization, query: &str) -> (r: bool)
    ensures
        r == loc_contains(loc@, query@),
    decreases *loc,
{
    if value_contains(&loc.string_unit, query) {
        return true;
    }
    if any_variation_contains(&loc.variations, query) {
        return true;
    }
    match &loc.substitutions {
        Some(m) => {
            let ghost all = subs_view(*m);
            let n = m.len();
            let mut i: usize = 0;
            assert(all.take(0).len() == 0);
            while i < n
                invariant
                    loc.substitutions == Some(*m),
                    m.wf(),
                    all == subs_view(*m),
                    n == m.values().len(),
                    i <= n,
                    !subs_contain(all.take(i as int), query@),
                decreases n - i,
            {
                proof {
                    assert(decreases_to!(loc.substitutions => loc.substitutions->0));
                    m.lemma_decreases();
                    let next = all.take(i + 1);
                    assert(next.drop_last() =~= all.take(i as int));
                    assert(next.last() == all[i as int]);
                }
                if substitution_contains(m.value_at(i), query) {
                    proof {
                        lemma_subs_contain_prefix(all, i + 1, query@);
                    }
                    return true;
                }
                i += 1;
            }
            assert(all.take(n as int) =~= all);
            false
        },
        None => false,
    }
}

/// Whether a substitution contains the query: see [`sub_contains`].
pub fn substitution_contains(sub: &XcSubstitution, query: &str) -> (r: bool)
    ensures
        r == sub_contains(sub@, query@),
    decreases *sub,
{
    if value_contains(&sub.string_unit, query) {
        return true;
    }
    any_variation_contains(&sub.variations, query)
}

fn passes(key: &str, entry: &XcStringEntry, query: &Option<String>) -> (r: bool)
    ensures
        r == entry_matches(key@, entry@, text_view(*query)),
{
    match query {
        Some(q) => {
            let lowered = to_lowercase(key);
            if str_contains(lowered.as_str(), q.as_str()) {
                return true;
            }
            any_case_contains(&entry.localizations, q.as_str())
        },
        None => true,
    }
}

fn lowered_filter(filter: Option<&str>) -> (r: Option<String>)
    ensures
        text_view(r) == query_of(filter),
{
    match filter {
        Some(f) => Some(to_lowercase(f)),
        None => None,
    }
}

fn report_translations(cases: &Cases) -> (r: OrderedMap<TranslationValue>)
    ensures
        r.wf(),
        value_cases_view(r) == values_of_cases(cases_view(*cases)),
{
    let mut r: OrderedMap<TranslationValue> = OrderedMap::new();
    let n = cases.len();
    let mut i: usize = 0;
    while i < n
        invariant
            cases.wf(),
            r.wf(),
            n == cases.values().len(),
            i <= n,
            r.keys() == cases.keys().take(i as int),
            r.values().len() == i,
            forall|j: int|
                0 <= j < i ==> value_view(#[trigger] r.values()[j]) == value_of_loc(
                    loc_view(cases.values()[j]),
                ),
        decreases n - i,
    {
        proof {
            lemma_prefix_lacks(cases.keys(), i as int);
        }
        let v = TranslationValue::from_localization(cases.value_at(i));
        r.insert(cases.key_at(i).clone(), v);
        i += 1;
        assert(r.keys() =~= cases.keys().take(i as int));
    }
    assert(cases.keys().take(n as int) =~= cases.keys());
    assert(value_cases_view(r) =~= values_of_cases(cases_view(*cases)));
    r
}

fn record_for(key: &str, entry: &XcStringEntry) -> (r: TranslationRecord)
    ensures
        r@ == record_of(key@, entry@),
{
    TranslationRecord {
        key: key.to_owned(),
        comment: copy_text(&entry.comment),
        extraction_state: copy_text(&entry.extraction_state),
        should_translate: entry.should_translate,
        translations: report_translations(&entry.localizations),
    }
}

fn summary_for(key: &str, entry: &XcStringEntry) -> (r: TranslationSummary)
    ensures
        r@ == summary_of(key@, entry@),
{
    let cases = &entry.localizations;
    let n = cases.len();
    let mut languages: Vec<String> = Vec::new();
    let mut has_variations = false;
    let mut i: usize = 0;
    let ghost all = cases_view(*cases);
    while i < n
        invariant
            cases.wf(),
            all == cases_view(*cases),
            n == cases.values().len(),
            i <= n,
            texts(languages@) == cases.keys().take(i as int),
            has_variations == cases_vary(all.take(i as int)),
        decreases n - i,
    {
        let ghost listed = texts(languages@);
        let language = cases.key_at(i).clone();
        languages.push(language);
        assert(texts(languages@) =~= listed.push(cases.keys()[i as int]));
        let loc = cases.value_at(i);
        let no_variations = match &loc.variations {
            Some(m) => m.is_empty(),
            None => true,
        };
        let no_substitutions = match &loc.substitutions {
            Some(m) => m.is_empty(),
            None => true,
        };
        let ghost was = has_variations;
        if !no_variations || !no_substitutions {
            has_variations = true;
        }
        i += 1;
        proof {
            assert(texts(languages@) =~= cases.keys().take(i as int));
            let now = all.take(i as int);
            let before = all.take(i - 1);
            assert(now[i - 1].1 == loc@);
            if cases_vary(now) {
                let k = choose|k: int| 0 <= k < now.len() && loc_varies((#[trigger] now[k]).1);
                if k < i - 1 {
                    assert(before[k] == now[k]);
                }
            }
            if cases_vary(before) {
                let k = choose|k: int| 0 <= k < before.len() && loc_varies((#[trigger] before[k]).1);
                assert(now[k] == before[k]);
            }
        }
    }
    proof {
        assert(all.take(n as int) =~= all);
        assert(cases.keys().take(n as int) =~= cases.keys());
        assert(keys_of(all) =~= cases.keys());
    }
    TranslationSummary { key: key.to_owned(), comment: copy_text(&entry.comment), languages, has_variations }
}

/// The records of the entries of a catalog that pass a filter: see
/// [`records_of`]. The filter matches without regard to case.
pub fn list_records(doc: &XcStringsFile, filter: Option<&str>) -> (r: Vec<TranslationRecord>)
    ensures
        records_view(r@) == records_of(doc@.strings, query_of(filter)),
{
    let query = lowered_filter(filter);
    let strings = &doc.strings;
    let ghost all = strings_view(*strings);
    let n = strings.len();
    let mut out: Vec<TranslationRecord> = Vec::new();
    let mut i: usize = 0;
    assert(records_view(out@) =~= records_of(all.take(0), query_of(filter)));
    while i < n
        invariant
            strings.wf(),
            all == strings_view(*strings),
            n == strings.values().len(),
            i <= n,
            text_view(query) == query_of(filter),
            records_view(out@) == records_of(all.take(i as int), query_of(filter)),
        decreases n - i,
    {
        let ghost before = records_view(out@);
        let key = strings.key_at(i);
        let entry = strings.value_at(i);
        if passes(key.as_str(), entry, &query) {
            out.push(record_for(key.as_str(), entry));
            assert(records_view(out@) =~= before.push(record_of(key@, entry@)));
        }
        i += 1;
        proof {
            let next = all.take(i as int);
            assert(next.drop_last() =~= all.take(i - 1));
            assert(next.last() == all[i - 1]);
        }
    }
    assert(all.take(n as int) =~= all);
    out
}

/// The summaries of the entries of a catalog that pass a filter: see
/// [`summaries_of`]. The filter matches without regard to case.
pub fn list_summaries(doc: &XcStringsFile, filter: Option<&str>) -> (r: Vec<TranslationSummary>)
    ensures
        summaries_view(r@) == summaries_of(doc@.strings, query_of(filter)),
{
    let query = lowered_filter(filter);
    let strings = &doc.strings;
    let ghost all = strings_view(*strings);
    let n = strings.len();
    let mut out: Vec<TranslationSummary> = Vec::new();
    let mut i: usize = 0;
    assert(summaries_view(out@) =~= summaries_of(all.take(0), query_of(filter)));
    while i < n
        invariant
            strings.wf(),
            all == strings_view(*strings),
            n == strings.values().len(),
            i <= n,
            text_view(query) == query_of(filter),
            summaries_view(out@) == summaries_of(all.take(i as int), query_of(filter)),
        decreases n - i,
    {
        let ghost before = summaries_view(out@);
        let key = strings.key_at(i);
        let entry = strings.value_at(i);
        if passes(key.as_str(), entry, &query) {
            out.push(summary_for(key.as_str(), entry));
            assert(summaries_view(out@) =~= before.push(summary_of(key@, entry@)));
        }
        i += 1;
        proof {
            let next = all.take(i as int);
            assert(next.drop_last() =~= all.take(i - 1));
            assert(next.last() == all[i - 1]);
        }
    }
    assert(all.take(n as int) =~= all);
    out
}

} // verus!
