use crate::codec::copy_raw;
use crate::json::{JsonValue, copy_json};
use crate::model::{
    Cases, FormatVersion, Variations, XcLocalization, XcStringEntry, XcStringUnit, XcStringsFile,
    XcSubstitution, cases_view, loc_view, strings_view, sub_view, subs_view, unit_view,
    variations_view,
};
use crate::ordered_map::OrderedMap;
use crate::records::TranslationRecord;
use crate::update::{
    CaseUpdates, FieldUpdate, SubUpdateModel, SubstitutionUpdate, TranslationUpdate,
    VariationUpdates, case_updates_view, number_change, sub_update_view, sub_updates_view,
    text_change, update_view, variation_updates_view,
};
use crate::value::{
    SubstitutionValue, TranslationValue, ValueCases, ValueVariations, copy_text,
    lemma_prefix_lacks, sub_value_view, value_cases_view, value_subs_view, value_variations_view,
    value_view,
};
use vstd::prelude::*;

verus! {

fn copy_unit(unit: &Option<XcStringUnit>) -> (r: Option<XcStringUnit>)
    ensures
        unit_view(r) == unit_view(*unit),
{
    match unit {
        Some(u) => Some(XcStringUnit { state: copy_text(&u.state), value: copy_text(&u.value) }),
        None => None,
    }
}

/// A copy of a localization.
pub fn copy_localization(l: &XcLocalization) -> (r: XcLocalization)
    ensures
        r@ == l@,
    decreases *l,
{
    let substitutions = match &l.substitutions {
        Some(m) => {
            assert(decreases_to!(l.substitutions => l.substitutions->0));
            Some(copy_substitutions(m))
        },
        None => None,
    };
    let variations = match &l.variations {
        Some(m) => {
            assert(decreases_to!(l.variations => l.variations->0));
            Some(copy_variations(m))
        },
        None => None,
    };
    XcLocalization { string_unit: copy_unit(&l.string_unit), substitutions, variations }
}

/// A copy of a substitution.
pub fn copy_substitution(s: &XcSubstitution) -> (r: XcSubstitution)
    ensures
        r@ == s@,
    decreases *s,
{
    let variations = match &s.variations {
        Some(m) => {
            assert(decreases_to!(s.variations => s.variations->0));
            Some(copy_variations(m))
        },
        None => None,
    };
    XcSubstitution {
        arg_num: s.arg_num,
        format_specifier: copy_text(&s.format_specifier),
        string_unit: copy_unit(&s.string_unit),
        variations,
    }
}

fn copy_cases(m: &Cases) -> (r: Cases)
    ensures
        r.wf(),
        cases_view(r) == cases_view(*m),
    decreases *m,
{
    let mut r: Cases = OrderedMap::new();
    let n = m.len();
    let mut i: usize = 0;
    while i < n
        invariant
            m.wf(),
            r.wf(),
            n == m.values().len(),
            i <= n,
            r.keys() == m.keys().take(i as int),
            r.values().len() == i,
            forall|j: int|
                0 <= j < i ==> loc_view(#[trigger] r.values()[j]) == loc_view(m.values()[j]),
        decreases n - i,
    {
        proof {
            m.lemma_decreases();
            lemma_prefix_lacks(m.keys(), i as int);
        }
        let v = copy_localization(m.value_at(i));
        r.insert(m.key_at(i).clone(), v);
        i += 1;
        assert(r.keys() =~= m.keys().take(i as int));
    }
    assert(m.keys().take(n as int) =~= m.keys());
    assert(cases_view(r) =~= cases_view(*m));
    r
}

fn copy_variations(m: &Variations) -> (r: Variations)
    ensures
        r.wf(),
        variations_view(r) == variations_view(*m),
    decreases *m,
{
    let mut r: Variations = OrderedMap::new();
    let n = m.len();
    let mut i: usize = 0;
    while i < n
        invariant
            m.wf(),
            r.wf(),
            n == m.values().len(),
            i <= n,
            r.keys() == m.keys().take(i as int),
            r.values().len() == i,
            forall|j: int|
                0 <= j < i ==> cases_view(#[trigger] r.values()[j]) == cases_view(m.values()[j]),
        decreases n - i,
    {
        proof {
            m.lemma_decreases();
            lemma_prefix_lacks(m.keys(), i as int);
        }
        let v = copy_cases(m.value_at(i));
        r.insert(m.key_at(i).clone(), v);
        i += 1;
        assert(r.keys() =~= m.keys().take(i as int));
    }
    assert(m.keys().take(n as int) =~= m.keys());
    assert(variations_view(r) =~= variations_view(*m));
    r
}

fn copy_substitutions(m: &OrderedMap<XcSubstitution>) -> (r: OrderedMap<XcSubstitution>)
    ensures
        r.wf(),
        subs_view(r) == subs_view(*m),
    decreases *m,
{
    let mut r: OrderedMap<XcSubstitution> = OrderedMap::new();
    let n = m.len();
    let mut i: usize = 0;
    while i < n
        invariant
            m.wf(),
            r.wf(),
            n == m.values().len(),
            i <= n,
            r.keys() == m.keys().take(i as int),
            r.values().len() == i,
            forall|j: int|
                0 <= j < i ==> sub_view(#[trigger] r.values()[j]) == sub_view(m.values()[j]),
        decreases n - i,
    {
        proof {
            m.lemma_decreases();
            lemma_prefix_lacks(m.keys(), i as int);
        }
        let v = copy_substitution(m.value_at(i));
        r.insert(m.key_at(i).clone(), v);
        i += 1;
        assert(r.keys() =~= m.keys().take(i as int));
    }
    assert(m.keys().take(n as int) =~= m.keys());
    assert(subs_view(r) =~= subs_view(*m));
    r
}

/// The model of an entry.
pub open spec fn entry_view(e: XcStringEntry) -> crate::model::EntryModel {
    e@
}

/// A copy of an entry.
pub fn copy_entry(e: &XcStringEntry) -> (r: XcStringEntry)
    ensures
        r@ == e@,
{
    XcStringEntry {
        comment: copy_text(&e.comment),
        extraction_state: copy_text(&e.extraction_state),
        localizations: copy_cases(&e.localizations),
        should_translate: e.should_translate,
    }
}

fn copy_entries(m: &OrderedMap<XcStringEntry>) -> (r: OrderedMap<XcStringEntry>)
    ensures
        r.wf(),
        strings_view(r) == strings_view(*m),
{
    let mut r: OrderedMap<XcStringEntry> = OrderedMap::new();
    let n = m.len();
    let mut i: usize = 0;
    while i < n
        invariant
            m.wf(),
            r.wf(),
            n == m.values().len(),
            i <= n,
            r.keys() == m.keys().take(i as int),
            r.values().len() == i,
            forall|j: int|
                0 <= j < i ==> entry_view(#[trigger] r.values()[j]) == entry_view(m.values()[j]),
        decreases n - i,
    {
        proof {
            lemma_prefix_lacks(m.keys(), i as int);
        }
        let v = copy_entry(m.value_at(i));
        r.insert(m.key_at(i).clone(), v);
        i += 1;
        assert(r.keys() =~= m.keys().take(i as int));
    }
    assert(m.keys().take(n as int) =~= m.keys());
    assert(strings_view(r) =~= strings_view(*m));
    r
}

/// A copy of a catalog.
pub fn copy_file(doc: &XcStringsFile) -> (r: XcStringsFile)
    ensures
        r@ == doc@,
{
    XcStringsFile {
        raw: copy_raw(&doc.raw),
        version: doc.version.clone(),
        format_version: match &doc.format_version {
            Some(FormatVersion::String(s)) => Some(FormatVersion::String(s.clone())),
            Some(FormatVersion::Integer(n)) => Some(FormatVersion::Integer(*n)),
            None => None,
        },
        source_language: doc.source_language.clone(),
        strings: copy_entries(&doc.strings),
    }
}

/// A copy of a reported translation.
pub fn copy_value(v: &TranslationValue) -> (r: TranslationValue)
    ensures
        r@ == v@,
    decreases *v,
{
    let substitutions = match &v.substitutions {
        Some(m) => {
            assert(decreases_to!(v.substitutions => v.substitutions->0));
            Some(copy_value_substitutions(m))
        },
        None => None,
    };
    let variations = match &v.variations {
        Some(m) => {
            assert(decreases_to!(v.variations => v.variations->0));
            Some(copy_value_variations(m))
        },
        None => None,
    };
    TranslationValue {
        state: copy_text(&v.state),
        value: copy_text(&v.value),
        substitutions,
        variations,
    }
}

/// A copy of a reported substitution.
pub fn copy_sub_value(v: &SubstitutionValue) -> (r: SubstitutionValue)
    ensures
        r@ == v@,
    decreases *v,
{
    let variations = match &v.variations {
        Some(m) => {
            assert(decreases_to!(v.variations => v.variations->0));
            Some(copy_value_variations(m))
        },
        None => None,
    };
    SubstitutionValue {
        state: copy_text(&v.state),
        value: copy_text(&v.value),
        arg_num: v.arg_num,
        format_specifier: copy_text(&v.format_specifier),
        variations,
    }
}

fn copy_value_cases(m: &ValueCases) -> (r: ValueCases)
    ensures
        r.wf(),
        value_cases_view(r) == value_cases_view(*m),
    decreases *m,
{
    let mut r: ValueCases = OrderedMap::new();
    let n = m.len();
    let mut i: usize = 0;
    while i < n
        invariant
            m.wf(),
            r.wf(),
            n == m.values().len(),
            i <= n,
            r.keys() == m.keys().take(i as int),
            r.values().len() == i,
            forall|j: int|
                0 <= j < i ==> value_view(#[trigger] r.values()[j]) == value_view(m.values()[j]),
        decreases n - i,
    {
        proof {
            m.lemma_decreases();
            lemma_prefix_lacks(m.keys(), i as int);
        }
        let v = copy_value(m.value_at(i));
        r.insert(m.key_at(i).clone(), v);
        i += 1;
        assert(r.keys() =~= m.keys().take(i as int));
    }
    assert(m.keys().take(n as int) =~= m.keys());
    assert(value_cases_view(r) =~= value_cases_view(*m));
    r
}

fn copy_value_variations(m: &ValueVariations) -> (r: ValueVariations)
    ensures
        r.wf(),
        value_variations_view(r) == value_variations_view(*m),
    decreases *m,
{
    let mut r: ValueVariations = OrderedMap::new();
    let n = m.len();
    let mut i: usize = 0;
    while i < n
        invariant
            m.wf(),
            r.wf(),
            n == m.values().len(),
            i <= n,
            r.keys() == m.keys().take(i as int),
            r.values().len() == i,
            forall|j: int|
                0 <= j < i ==> value_cases_view(#[trigger] r.values()[j]) == value_cases_view(m.values()[j]),
        decreases n - i,
    {
        proof {
            m.lemma_decreases();
            lemma_prefix_lacks(m.keys(), i as int);
        }
        let v = copy_value_cases(m.value_at(i));
        r.insert(m.key_at(i).clone(), v);
        i += 1;
        assert(r.keys() =~= m.keys().take(i as int));
    }
    assert(m.keys().take(n as int) =~= m.keys());
    assert(value_variations_view(r) =~= value_variations_view(*m));
    r
}

fn copy_value_substitutions(m: &OrderedMap<SubstitutionValue>) -> (r: OrderedMap<SubstitutionValue>)
    ensures
        r.wf(),
        value_subs_view(r) == value_subs_view(*m),
    decreases *m,
{
    let mut r: OrderedMap<SubstitutionValue> = OrderedMap::new();
    let n = m.len();
    let mut i: usize = 0;
    while i < n
        invariant
            m.wf(),
            r.wf(),
            n == m.values().len(),
            i <= n,
            r.keys() == m.keys().take(i as int),
            r.values().len() == i,
            forall|j: int|
                0 <= j < i ==> sub_value_view(#[trigger] r.values()[j]) == sub_value_view(m.values()[j]),
        decreases n - i,
    {
        proof {
            m.lemma_decreases();
            lemma_prefix_lacks(m.keys(), i as int);
        }
        let v = copy_sub_value(m.value_at(i));
        r.insert(m.key_at(i).clone(), v);
        i += 1;
        assert(r.keys() =~= m.keys().take(i as int));
    }
    assert(m.keys().take(n as int) =~= m.keys());
    assert(value_subs_view(r) =~= value_subs_view(*m));
    r
}

fn copy_text_change(c: &FieldUpdate<String>) -> (r: FieldUpdate<String>)
    ensures
        text_change(r) == text_change(*c),
{
    match c {
        FieldUpdate::Unchanged => FieldUpdate::Unchanged,
        FieldUpdate::Clear => FieldUpdate::Clear,
        FieldUpdate::Replace(s) => FieldUpdate::Replace(s.clone()),
    }
}

fn copy_number_change(c: &FieldUpdate<i64>) -> (r: FieldUpdate<i64>)
    ensures
        number_change(r) == number_change(*c),
{
    match c {
        FieldUpdate::Unchanged => FieldUpdate::Unchanged,
        FieldUpdate::Clear => FieldUpdate::Clear,
        FieldUpdate::Replace(n) => FieldUpdate::Replace(*n),
    }
}

/// A copy of a partial update.
pub fn copy_update(u: &TranslationUpdate) -> (r: TranslationUpdate)
    ensures
        r@ == u@,
    decreases *u,
{
    let substitutions = match &u.substitutions {
        Some(m) => {
            assert(decreases_to!(u.substitutions => u.substitutions->0));
            Some(copy_sub_updates(m))
        },
        None => None,
    };
    let variations = match &u.variations {
        Some(m) => {
            assert(decreases_to!(u.variations => u.variations->0));
            Some(copy_variation_updates(m))
        },
        None => None,
    };
    TranslationUpdate {
        state: copy_text_change(&u.state),
        value: copy_text_change(&u.value),
        substitutions,
        variations,
    }
}

/// A copy of a partial update of a substitution.
pub fn copy_sub_update(u: &SubstitutionUpdate) -> (r: SubstitutionUpdate)
    ensures
        r@ == u@,
    decreases *u,
{
    let variations = match &u.variations {
        Some(m) => {
            assert(decreases_to!(u.variations => u.variations->0));
            Some(copy_variation_updates(m))
        },
        None => None,
    };
    SubstitutionUpdate {
        state: copy_text_change(&u.state),
        value: copy_text_change(&u.value),
        arg_num: copy_number_change(&u.arg_num),
        format_specifier: copy_text_change(&u.format_specifier),
        variations,
    }
}

/// The model of an optional update of a substitution.
pub open spec fn opt_sub_update_view(u: Option<SubstitutionUpdate>) -> Option<SubUpdateModel> {
    match u {
        Some(x) => Some(sub_update_view(x)),
        None => None,
    }
}

fn copy_opt_sub_update(u: &Option<SubstitutionUpdate>) -> (r: Option<SubstitutionUpdate>)
    ensures
        opt_sub_update_view(r) == opt_sub_update_view(*u),
    decreases *u,
{
    match u {
        Some(x) => {
            assert(decreases_to!(*u => u->0));
            Some(copy_sub_update(x))
        },
        None => None,
    }
}

fn copy_case_updates(m: &CaseUpdates) -> (r: CaseUpdates)
    ensures
        r.wf(),
        case_updates_view(r) == case_updates_view(*m),
    decreases *m,
{
    let mut r: CaseUpdates = OrderedMap::new();
    let n = m.len();
    let mut i: usize = 0;
    while i < n
        invariant
            m.wf(),
            r.wf(),
            n == m.values().len(),
            i <= n,
            r.keys() == m.keys().take(i as int),
            r.values().len() == i,
            forall|j: int|
                0 <= j < i ==> update_view(#[trigger] r.values()[j]) == update_view(m.values()[j]),
        decreases n - i,
    {
        proof {
            m.lemma_decreases();
            lemma_prefix_lacks(m.keys(), i as int);
        }
        let v = copy_update(m.value_at(i));
        r.insert(m.key_at(i).clone(), v);
        i += 1;
        assert(r.keys() =~= m.keys().take(i as int));
    }
    assert(m.keys().take(n as int) =~= m.keys());
    assert(case_updates_view(r) =~= case_updates_view(*m));
    r
}

fn copy_variation_updates(m: &VariationUpdates) -> (r: VariationUpdates)
    ensures
        r.wf(),
        variation_updates_view(r) == variation_updates_view(*m),
    decreases *m,
{
    let mut r: VariationUpdates = OrderedMap::new();
    let n = m.len();
    let mut i: usize = 0;
    while i < n
        invariant
            m.wf(),
            r.wf(),
            n == m.values().len(),
            i <= n,
            r.keys() == m.keys().take(i as int),
            r.values().len() == i,
            forall|j: int|
                0 <= j < i ==> case_updates_view(#[trigger] r.values()[j]) == case_updates_view(m.values()[j]),
        decreases n - i,
    {
        proof {
            m.lemma_decreases();
            lemma_prefix_lacks(m.keys(), i as int);
        }
        let v = copy_case_updates(m.value_at(i));
        r.insert(m.key_at(i).clone(), v);
        i += 1;
        assert(r.keys() =~= m.keys().take(i as int));
    }
    assert(m.keys().take(n as int) =~= m.keys());
    assert(variation_updates_view(r) =~= variation_updates_view(*m));
    r
}

fn copy_sub_updates(m: &OrderedMap<Option<SubstitutionUpdate>>) -> (r: OrderedMap<Option<SubstitutionUpdate>>)
    ensures
        r.wf(),
        sub_updates_view(r) == sub_updates_view(*m),
    decreases *m,
{
    let mut r: OrderedMap<Option<SubstitutionUpdate>> = OrderedMap::new();
    let n = m.len();
    let mut i: usize = 0;
    while i < n
        invariant
            m.wf(),
            r.wf(),
            n == m.values().len(),
            i <= n,
            r.keys() == m.keys().take(i as int),
            r.values().len() == i,
            forall|j: int|
                0 <= j < i ==> opt_sub_update_view(#[trigger] r.values()[j]) == opt_sub_update_view(m.values()[j]),
        decreases n - i,
    {
        proof {
            m.lemma_decreases();
            lemma_prefix_lacks(m.keys(), i as int);
        }
        let v = copy_opt_sub_update(m.value_at(i));
        r.insert(m.key_at(i).clone(), v);
        i += 1;
        assert(r.keys() =~= m.keys().take(i as int));
    }
    assert(m.keys().take(n as int) =~= m.keys());
    assert(sub_updates_view(r) =~= sub_updates_view(*m));
    r
}

/// A copy of a record.
pub fn copy_record(record: &TranslationRecord) -> (r: TranslationRecord)
    ensures
        r@ == record@,
{
    TranslationRecord {
        key: record.key.clone(),
        comment: copy_text(&record.comment),
        extraction_state: copy_text(&record.extraction_state),
        should_translate: record.should_translate,
        translations: copy_value_cases(&record.translations),
    }
}

impl Clone for XcLocalization {
    /// A copy that holds what this holds.
    fn clone(&self) -> (r: Self)
        ensures
            r@ == self@,
    {
        copy_localization(self)
    }
}

impl Clone for XcSubstitution {
    /// A copy that holds what this holds.
    fn clone(&self) -> (r: Self)
        ensures
            r@ == self@,
    {
        copy_substitution(self)
    }
}

impl Clone for XcStringEntry {
    /// A copy that holds what this holds.
    fn clone(&self) -> (r: Self)
        ensures
            r@ == self@,
    {
        copy_entry(self)
    }
}

impl Clone for XcStringsFile {
    /// A copy that holds what this holds.
    fn clone(&self) -> (r: Self)
        ensures
            r@ == self@,
    {
        copy_file(self)
    }
}

impl Clone for TranslationValue {
    /// A copy that holds what this holds.
    fn clone(&self) -> (r: Self)
        ensures
            r@ == self@,
    {
        copy_value(self)
    }
}

impl Clone for SubstitutionValue {
    /// A copy that holds what this holds.
    fn clone(&self) -> (r: Self)
        ensures
            r@ == self@,
    {
        copy_sub_value(self)
    }
}

impl Clone for TranslationUpdate {
    /// A copy that holds what this holds.
    fn clone(&self) -> (r: Self)
        ensures
            r@ == self@,
    {
        copy_update(self)
    }
}

impl Clone for SubstitutionUpdate {
    /// A copy that holds what this holds.
    fn clone(&self) -> (r: Self)
        ensures
            r@ == self@,
    {
        copy_sub_update(self)
    }
}

impl Clone for TranslationRecord {
    /// A copy that holds what this holds.
    fn clone(&self) -> (r: Self)
        ensures
            r@ == self@,
    {
        copy_record(self)
    }
}

impl Clone for JsonValue {
    /// A copy that holds what this holds.
    fn clone(&self) -> (r: Self)
        ensures
            r@ == self@,
    {
        copy_json(self)
    }
}

} // verus!
