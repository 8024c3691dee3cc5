use crate::model::text_view;
use crate::ordered_map::OrderedMap;
use crate::update::{
    CaseUpdates, CaseUpdatesModel, FieldUpdate, SubUpdateModel, SubstitutionUpdate,
    TranslationUpdate, UpdateModel, VariationUpdates, VariationUpdatesModel, case_updates_view,
    no_update, set_or_clear, sub_update_view, sub_updates_view, text_change,
    update_view, variation_updates_view,
};
use crate::value::{
    SubValueModel, SubstitutionValue, TranslationValue, ValueCases, ValueCasesModel, ValueModel,
    ValueVariations, ValueVariationsModel, lemma_prefix_lacks, sub_value_view, value_cases_view,
    value_subs_view, value_variations_view, value_view,
};
use vstd::prelude::*;

verus! {

/// An optional integer as an update that sets or clears a field.
pub open spec fn set_or_clear_number(n: Option<int>) -> FieldUpdate<int> {
    match n {
        Some(i) => FieldUpdate::Replace(i),
        None => FieldUpdate::Clear,
    }
}

/// The update that makes a localization hold what a reported translation
/// holds: it sets the state and the value, or clears the one that is absent,
/// and addresses every substitution and every case of every selector;
/// where the translation has no variations, or no substitutions, the update
/// names none.
pub open spec fn update_of_value(v: ValueModel) -> UpdateModel
    decreases v,
{
    UpdateModel {
        state: set_or_clear(v.state),
        value: set_or_clear(v.value),
        substitutions: if v.substitutions.len() > 0 {
            Some(sub_updates_of_values(v.substitutions))
        } else {
            None
        },
        variations: if v.variations.len() > 0 {
            Some(updates_of_variations(v.variations))
        } else {
            None
        },
    }
}

/// The update that makes a substitution hold what a reported substitution holds.
pub open spec fn sub_update_of_value(v: SubValueModel) -> SubUpdateModel
    decreases v,
{
    SubUpdateModel {
        state: set_or_clear(v.state),
        value: set_or_clear(v.value),
        arg_num: set_or_clear_number(v.arg_num),
        format_specifier: set_or_clear(v.format_specifier),
        variations: if v.variations.len() > 0 {
            Some(updates_of_variations(v.variations))
        } else {
            None
        },
    }
}

/// The updates of the cases of a selector, each in its place.
pub open spec fn updates_of_cases(cases: ValueCasesModel) -> CaseUpdatesModel
    decreases cases,
{
    Seq::new(
        cases.len(),
        |i: int|
            if 0 <= i < cases.len() {
                (cases[i].0, update_of_value(cases[i].1))
            } else {
                (Seq::empty(), no_update())
            },
    )
}

/// The updates of the selectors, each in its place.
pub open spec fn updates_of_variations(vars: ValueVariationsModel) -> VariationUpdatesModel
    decreases vars,
{
    Seq::new(
        vars.len(),
        |i: int|
            if 0 <= i < vars.len() {
                (vars[i].0, updates_of_cases(vars[i].1))
            } else {
                (Seq::empty(), Seq::empty())
            },
    )
}

/// The updates of the substitutions, each in its place.
pub open spec fn sub_updates_of_values(subs: Seq<(Seq<char>, SubValueModel)>) -> Seq<
    (Seq<char>, Option<SubUpdateModel>),
>
    decreases subs,
{
    Seq::new(
        subs.len(),
        |i: int|
            if 0 <= i < subs.len() {
                (subs[i].0, Some(sub_update_of_value(subs[i].1)))
            } else {
                (Seq::empty(), None)
            },
    )
}

fn set_or_clear_copy(t: &Option<String>) -> (r: FieldUpdate<String>)
    ensures
        text_change(r) == set_or_clear(text_view(*t)),
{
    match t {
        Some(s) => FieldUpdate::Replace(s.clone()),
        None => FieldUpdate::Clear,
    }
}

fn case_updates(cases: &ValueCases) -> (r: CaseUpdates)
    ensures
        r.wf(),
        case_updates_view(r) == updates_of_cases(value_cases_view(*cases)),
    decreases *cases,
{
    let mut r: CaseUpdates = OrderedMap::new();
    let n = cases.len();
    let mut i: usize = 0;
    while i < n
        invariant
            cases.wf(),
            r.wf(),
            n == cases.values().len(),
            i <= n,
            r.keys() == cases.keys().take(i as int),
            r.values().len() == i,
            forall|j: int|
                0 <= j < i ==> update_view(#[trigger] r.values()[j]) == update_of_value(
                    value_view(cases.values()[j]),
                ),
        decreases n - i,
    {
        proof {
            cases.lemma_decreases();
            lemma_prefix_lacks(cases.keys(), i as int);
        }
        let u = TranslationUpdate::from_value(cases.value_at(i));
        r.insert(cases.key_at(i).clone(), u);
        i += 1;
        assert(r.keys() =~= cases.keys().take(i as int));
    }
    assert(cases.keys().take(n as int) =~= cases.keys());
    assert(case_updates_view(r) =~= updates_of_cases(value_cases_view(*cases)));
    r
}

fn variation_updates(vars: &ValueVariations) -> (r: VariationUpdates)
    ensures
        r.wf(),
        variation_updates_view(r) == updates_of_variations(value_variations_view(*vars)),
    decreases *vars,
{
    let mut r: VariationUpdates = OrderedMap::new();
    let n = vars.len();
    let mut i: usize = 0;
    while i < n
        invariant
            vars.wf(),
            r.wf(),
            n == vars.values().len(),
            i <= n,
            r.keys() == vars.keys().take(i as int),
            r.values().len() == i,
            forall|j: int|
                0 <= j < i ==> case_updates_view(#[trigger] r.values()[j]) == updates_of_cases(
                    value_cases_view(vars.values()[j]),
                ),
        decreases n - i,
    {
        proof {
            vars.lemma_decreases();
            lemma_prefix_lacks(vars.keys(), i as int);
        }
        let u = case_updates(vars.value_at(i));
        r.insert(vars.key_at(i).clone(), u);
        i += 1;
        assert(r.keys() =~= vars.keys().take(i as int));
    }
    assert(vars.keys().take(n as int) =~= vars.keys());
    assert(variation_updates_view(r) =~= updates_of_variations(value_variations_view(*vars)));
    r
}

fn optional_variation_updates(vars: &Option<ValueVariations>) -> (r: Option<VariationUpdates>)
    ensures
        match r {
            Some(m) => *vars is Some && value_variations_view(vars->0).len() > 0
                && variation_updates_view(m) == updates_of_variations(
                value_variations_view(vars->0),
            ),
            None => *vars is None || value_variations_view(vars->0).len() == 0,
        },
    decreases *vars,
{
    match vars {
        Some(m) => {
            if m.is_empty() {
                None
            } else {
                assert(decreases_to!(*vars => vars->0));
                Some(variation_updates(m))
            }
        },
        None => None,
    }
}

impl TranslationUpdate {
    /// The update that makes a localization hold what a reported translation
    /// holds: see [`update_of_value`].
    pub fn from_value(value: &TranslationValue) -> (r: Self)
        ensures
            r@ == update_of_value(value@),
        decreases *value,
    {
        let substitutions = match &value.substitutions {
            Some(m) => {
                if m.is_empty() {
                    None
                } else {
                    let mut out: OrderedMap<Option<SubstitutionUpdate>> = OrderedMap::new();
                    let n = m.len();
                    let mut i: usize = 0;
                    while i < n
                        invariant
                            value.substitutions == Some(*m),
                            m.wf(),
                            out.wf(),
                            n == m.values().len(),
                            i <= n,
                            out.keys() == m.keys().take(i as int),
                            out.values().len() == i,
                            forall|j: int|
                                0 <= j < i ==> (#[trigger] out.values()[j]) is Some
                                    && sub_update_view(out.values()[j]->0) == sub_update_of_value(
                                    sub_value_view(m.values()[j]),
                                ),
                        decreases n - i,
                    {
                        proof {
                            assert(decreases_to!(value.substitutions => value.substitutions->0));
                            m.lemma_decreases();
                            lemma_prefix_lacks(m.keys(), i as int);
                        }
                        let u = SubstitutionUpdate::from_value(m.value_at(i));
                        out.insert(m.key_at(i).clone(), Some(u));
                        i += 1;
                        assert(out.keys() =~= m.keys().take(i as int));
                    }
                    assert(m.keys().take(n as int) =~= m.keys());
                    assert(sub_updates_view(out) =~= sub_updates_of_values(value_subs_view(*m)));
                    Some(out)
                }
            },
            None => None,
        };
        let variations = optional_variation_updates(&value.variations);
        TranslationUpdate {
            state: set_or_clear_copy(&value.state),
            value: set_or_clear_copy(&value.value),
            substitutions,
            variations,
        }
    }
}

impl SubstitutionUpdate {
    /// The update that makes a substitution hold what a reported
    /// substitution holds: see [`sub_update_of_value`].
    pub fn from_value(value: &SubstitutionValue) -> (r: Self)
        ensures
            r@ == sub_update_of_value(value@),
        decreases *value,
    {
        let variations = optional_variation_updates(&value.variations);
        SubstitutionUpdate {
            state: set_or_clear_copy(&value.state),
            value: set_or_clear_copy(&value.value),
            arg_num: match value.arg_num {
                Some(n) => FieldUpdate::Replace(n),
                None => FieldUpdate::Clear,
            },
            format_specifier: set_or_clear_copy(&value.format_specifier),
            variations,
        }
    }
}

} // verus!
