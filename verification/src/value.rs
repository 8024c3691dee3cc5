use crate::model::{
    Cases, CasesModel, LocModel, SubModel, Variations, VariationsModel, XcLocalization,
    XcSubstitution, cases_view, loc_view, sub_view, subs_view, text_view, variations_view,
};
use crate::ordered_map::OrderedMap;
use crate::update::{keys_of, lookup};
use vstd::prelude::*;

verus! {

/// The cases of one selector, as reported to callers.
pub type ValueCases = OrderedMap<TranslationValue>;

/// The variation selectors of a translation, as reported to callers.
pub type ValueVariations = OrderedMap<ValueCases>;

/// What one language holds for one key, as reported to callers: the state and
/// the value of the string unit stand beside the substitutions and variations.
#[derive(Debug)]
pub struct TranslationValue {
    pub state: Option<String>,
    pub value: Option<String>,
    pub substitutions: Option<OrderedMap<SubstitutionValue>>,
    pub variations: Option<ValueVariations>,
}

/// A substitution, as reported to callers.
#[derive(Debug)]
pub struct SubstitutionValue {
    pub state: Option<String>,
    pub value: Option<String>,
    pub arg_num: Option<i64>,
    pub format_specifier: Option<String>,
    pub variations: Option<ValueVariations>,
}

/// Reported cases in order.
pub type ValueCasesModel = Seq<(Seq<char>, ValueModel)>;

/// Reported selectors in order.
pub type ValueVariationsModel = Seq<(Seq<char>, ValueCasesModel)>;

/// The mathematical value of a [`TranslationValue`].
pub struct ValueModel {
    pub state: Option<Seq<char>>,
    pub value: Option<Seq<char>>,
    pub substitutions: Seq<(Seq<char>, SubValueModel)>,
    pub variations: ValueVariationsModel,
}

/// The mathematical value of a [`SubstitutionValue`].
pub struct SubValueModel {
    pub state: Option<Seq<char>>,
    pub value: Option<Seq<char>>,
    pub arg_num: Option<int>,
    pub format_specifier: Option<Seq<char>>,
    pub variations: ValueVariationsModel,
}

/// A reported translation that holds nothing.
pub open spec fn empty_value() -> ValueModel {
    ValueModel { state: None, value: None, substitutions: Seq::empty(), variations: Seq::empty() }
}

/// A reported substitution that holds nothing.
pub open spec fn empty_sub_value() -> SubValueModel {
    SubValueModel {
        state: None,
        value: None,
        arg_num: None,
        format_specifier: None,
        variations: Seq::empty(),
    }
}

/// The model of a reported translation.
pub open spec fn value_view(v: TranslationValue) -> ValueModel
    decreases v,
{
    ValueModel {
        state: text_view(v.state),
        value: text_view(v.value),
        substitutions: match v.substitutions {
            Some(m) => value_subs_view(m),
            None => Seq::empty(),
        },
        variations: match v.variations {
            Some(m) => value_variations_view(m),
            None => Seq::empty(),
        },
    }
}

/// The model of a reported substitution.
pub open spec fn sub_value_view(v: SubstitutionValue) -> SubValueModel
    decreases v,
{
    SubValueModel {
        state: text_view(v.state),
        value: text_view(v.value),
        arg_num: match v.arg_num {
            Some(n) => Some(n as int),
            None => None,
        },
        format_specifier: text_view(v.format_specifier),
        variations: match v.variations {
            Some(m) => value_variations_view(m),
            None => Seq::empty(),
        },
    }
}

/// The model of a map of reported translations: its entries in order.
pub open spec fn value_cases_view(m: ValueCases) -> ValueCasesModel
    decreases m,
{
    Seq::new(
        m.values().len(),
        |i: int|
            if 0 <= i < m.values().len() {
                proof {
                    m.lemma_decreases();
                }
                (m.keys()[i], value_view(m.values()[i]))
            } else {
                (Seq::empty(), empty_value())
            },
    )
}

/// The model of a map of reported selectors: its entries in order.
pub open spec fn value_variations_view(m: ValueVariations) -> ValueVariationsModel
    decreases m,
{
    Seq::new(
        m.values().len(),
        |i: int|
            if 0 <= i < m.values().len() {
                proof {
                    m.lemma_decreases();
                }
                (m.keys()[i], value_cases_view(m.values()[i]))
            } else {
                (Seq::empty(), Seq::empty())
            },
    )
}

/// The model of a map of reported substitutions: its entries in order.
pub open spec fn value_subs_view(m: OrderedMap<SubstitutionValue>) -> Seq<
    (Seq<char>, SubValueModel),
>
    decreases m,
{
    Seq::new(
        m.values().len(),
        |i: int|
            if 0 <= i < m.values().len() {
                proof {
                    m.lemma_decreases();
                }
                (m.keys()[i], sub_value_view(m.values()[i]))
            } else {
                (Seq::empty(), empty_sub_value())
            },
    )
}

impl View for TranslationValue {
    type V = ValueModel;

    open spec fn view(&self) -> ValueModel {
        value_view(*self)
    }
}

impl View for SubstitutionValue {
    type V = SubValueModel;

    open spec fn view(&self) -> SubValueModel {
        sub_value_view(*self)
    }
}

/// What is reported of a localization: the state and the value of its string
/// unit, and its substitutions and variations, each reported in turn.
pub open spec fn value_of_loc(l: LocModel) -> ValueModel
    decreases l,
{
    ValueModel {
        state: match l.unit {
            Some(u) => u.state,
            None => None,
        },
        value: match l.unit {
            Some(u) => u.value,
            None => None,
        },
        substitutions: values_of_subs(l.substitutions),
        variations: values_of_variations(l.variations),
    }
}

/// What is reported of a substitution.
pub open spec fn value_of_sub(s: SubModel) -> SubValueModel
    decreases s,
{
    SubValueModel {
        state: match s.unit {
            Some(u) => u.state,
            None => None,
        },
        value: match s.unit {
            Some(u) => u.value,
            None => None,
        },
        arg_num: s.arg_num,
        format_specifier: s.format_specifier,
        variations: values_of_variations(s.variations),
    }
}

/// What is reported of the cases of a selector: each case in its place.
pub open spec fn values_of_cases(cases: CasesModel) -> ValueCasesModel
    decreases cases,
{
    Seq::new(
        cases.len(),
        |i: int|
            if 0 <= i < cases.len() {
                (cases[i].0, value_of_loc(cases[i].1))
            } else {
                (Seq::empty(), empty_value())
            },
    )
}

/// What is reported of the variations: each selector in its place.
pub open spec fn values_of_variations(vars: VariationsModel) -> ValueVariationsModel
    decreases vars,
{
    Seq::new(
        vars.len(),
        |i: int|
            if 0 <= i < vars.len() {
                (vars[i].0, values_of_cases(vars[i].1))
            } else {
                (Seq::empty(), Seq::empty())
            },
    )
}

/// What is reported of the substitutions: each in its place.
pub open spec fn values_of_subs(subs: Seq<(Seq<char>, SubModel)>) -> Seq<
    (Seq<char>, SubValueModel),
>
    decreases subs,
{
    Seq::new(
        subs.len(),
        |i: int|
            if 0 <= i < subs.len() {
                (subs[i].0, value_of_sub(subs[i].1))
            } else {
                (Seq::empty(), empty_sub_value())
            },
    )
}

/// In a sequence without duplicates no element stands among those before it.
pub proof fn lemma_prefix_lacks(keys: Seq<Seq<char>>, i: int)
    requires
        keys.no_duplicates(),
        0 <= i < keys.len(),
    ensures
        !keys.take(i).contains(keys[i]),
{
    if keys.take(i).contains(keys[i]) {
        let j = choose|j: int| 0 <= j < keys.take(i).len() && keys.take(i)[j] == keys[i];
        assert(keys[j] == keys[i]);
    }
}

/// A copy of an optional string.
pub fn copy_text(s: &Option<String>) -> (r: Option<String>)
    ensures
        text_view(r) == text_view(*s),
{
    match s {
        Some(t) => Some(t.clone()),
        None => None,
    }
}

fn report_cases(cases: &Cases) -> (r: ValueCases)
    ensures
        r.wf(),
        value_cases_view(r) == values_of_cases(cases_view(*cases)),
    decreases *cases,
{
    let mut r: ValueCases = OrderedMap::new();
    let n = cases.len();
    let mut i: usize = 0;
    while i < n
        invariant
            cases.wf(),
            r.wf(),
            n == cases.values().len(),
            i <= n,
            r.keys() == cases.keys().take(i as int),
            r.values().len() == i,
            forall|j: int|
                0 <= j < i ==> value_view(#[trigger] r.values()[j]) == value_of_loc(
                    loc_view(cases.values()[j]),
                ),
        decreases n - i,
    {
        proof {
            cases.lemma_decreases();
            lemma_prefix_lacks(cases.keys(), i as int);
        }
        let v = TranslationValue::from_localization(cases.value_at(i));
        r.insert(cases.key_at(i).clone(), v);
        i += 1;
        assert(r.keys() =~= cases.keys().take(i as int));
    }
    assert(cases.keys().take(n as int) =~= cases.keys());
    assert(value_cases_view(r) =~= values_of_cases(cases_view(*cases)));
    r
}

fn report_variations(vars: &Variations) -> (r: ValueVariations)
    ensures
        r.wf(),
        value_variations_view(r) == values_of_variations(variations_view(*vars)),
    decreases *vars,
{
    let mut r: ValueVariations = OrderedMap::new();
    let n = vars.len();
    let mut i: usize = 0;
    while i < n
        invariant
            vars.wf(),
            r.wf(),
            n == vars.values().len(),
            i <= n,
            r.keys() == vars.keys().take(i as int),
            r.values().len() == i,
            forall|j: int|
                0 <= j < i ==> value_cases_view(#[trigger] r.values()[j]) == values_of_cases(
                    cases_view(vars.values()[j]),
                ),
        decreases n - i,
    {
        proof {
            vars.lemma_decreases();
            lemma_prefix_lacks(vars.keys(), i as int);
        }
        let v = report_cases(vars.value_at(i));
        r.insert(vars.key_at(i).clone(), v);
        i += 1;
        assert(r.keys() =~= vars.keys().take(i as int));
    }
    assert(vars.keys().take(n as int) =~= vars.keys());
    assert(value_variations_view(r) =~= values_of_variations(variations_view(*vars)));
    r
}

fn report_substitutions(subs: &OrderedMap<XcSubstitution>) -> (r: OrderedMap<SubstitutionValue>)
    ensures
        r.wf(),
        value_subs_view(r) == values_of_subs(subs_view(*subs)),
    decreases *subs,
{
    let mut r: OrderedMap<SubstitutionValue> = OrderedMap::new();
    let n = subs.len();
    let mut i: usize = 0;
    while i < n
        invariant
            subs.wf(),
            r.wf(),
            n == subs.values().len(),
            i <= n,
            r.keys() == subs.keys().take(i as int),
            r.values().len() == i,
            forall|j: int|
                0 <= j < i ==> sub_value_view(#[trigger] r.values()[j]) == value_of_sub(
                    sub_view(subs.values()[j]),
                ),
        decreases n - i,
    {
        proof {
            subs.lemma_decreases();
            lemma_prefix_lacks(subs.keys(), i as int);
        }
        let v = SubstitutionValue::from_substitution(subs.value_at(i));
        r.insert(subs.key_at(i).clone(), v);
        i += 1;
        assert(r.keys() =~= subs.keys().take(i as int));
    }
    assert(subs.keys().take(n as int) =~= subs.keys());
    assert(value_subs_view(r) =~= values_of_subs(subs_view(*subs)));
    r
}

impl TranslationValue {
    /// What is reported of a localization: see [`value_of_loc`].
    pub fn from_localization(loc: &XcLocalization) -> (r: Self)
        ensures
            r@ == value_of_loc(loc@),
        decreases *loc,
    {
        let state = match &loc.string_unit {
            Some(u) => copy_text(&u.state),
            None => None,
        };
        let value = match &loc.string_unit {
            Some(u) => copy_text(&u.value),
            None => None,
        };
        let substitutions = match &loc.substitutions {
            Some(m) => {
                assert(decreases_to!(loc.substitutions => loc.substitutions->0));
                Some(report_substitutions(m))
            },
            None => None,
        };
        let variations = match &loc.variations {
            Some(m) => {
                assert(decreases_to!(loc.variations => loc.variations->0));
                Some(report_variations(m))
            },
            None => None,
        };
        let r = TranslationValue { state, value, substitutions, variations };
        proof {
            assert(r@.substitutions =~= values_of_subs(loc@.substitutions));
            assert(r@.variations =~= values_of_variations(loc@.variations));
        }
        r
    }
}

impl SubstitutionValue {
    /// What is reported of a substitution: see [`value_of_sub`].
    pub fn from_substitution(sub: &XcSubstitution) -> (r: Self)
        ensures
            r@ == value_of_sub(sub@),
        decreases *sub,
    {
        let state = match &sub.string_unit {
            Some(u) => copy_text(&u.state),
            None => None,
        };
        let value = match &sub.string_unit {
            Some(u) => copy_text(&u.value),
            None => None,
        };
        let variations = match &sub.variations {
            Some(m) => {
                assert(decreases_to!(sub.variations => sub.variations->0));
                Some(report_variations(m))
            },
            None => None,
        };
        let r = SubstitutionValue {
            state,
            value,
            arg_num: sub.arg_num,
            format_specifier: copy_text(&sub.format_specifier),
            variations,
        };
        proof {
            assert(r@.variations =~= values_of_variations(sub@.variations));
        }
        r
    }
}

/// The cases that reported variations hold under a selector.
pub open spec fn cases_under(vars: ValueVariationsModel, selector: Seq<char>) -> Option<
    ValueCasesModel,
> {
    lookup(vars, selector)
}

fn find_cases<'a>(vars: &'a Option<ValueVariations>, selector: &str) -> (r: Option<&'a ValueCases>)
    ensures
        match r {
            Some(c) => cases_under(opt_value_variations_view(*vars), selector@) == Some(
                value_cases_view(*c),
            ),
            None => cases_under(opt_value_variations_view(*vars), selector@) is None,
        },
{
    match vars {
        Some(m) => {
            let r = m.get(selector);
            proof {
                assert(keys_of(value_variations_view(*m)) =~= m.keys());
            }
            r
        },
        None => {
            assert(keys_of(Seq::<(Seq<char>, ValueCasesModel)>::empty()) =~= Seq::empty());
            None
        },
    }
}

/// The variations that an optional map of reported selectors holds.
pub open spec fn opt_value_variations_view(m: Option<ValueVariations>) -> ValueVariationsModel {
    match m {
        Some(v) => value_variations_view(v),
        None => Seq::empty(),
    }
}

impl TranslationValue {
    /// The cases of a variation selector, where the translation has the selector.
    pub fn variation_cases(&self, selector: &str) -> (r: Option<&ValueCases>)
        ensures
            match r {
                Some(c) => cases_under(self@.variations, selector@) == Some(value_cases_view(*c)),
                None => cases_under(self@.variations, selector@) is None,
            },
    {
        find_cases(&self.variations, selector)
    }

    /// The substitution of a name, where the translation has one.
    pub fn substitution(&self, name: &str) -> (r: Option<&SubstitutionValue>)
        ensures
            match r {
                Some(v) => lookup(self@.substitutions, name@) == Some(v@),
                None => lookup(self@.substitutions, name@) is None,
            },
    {
        match &self.substitutions {
            Some(m) => {
                let r = m.get(name);
                proof {
                    assert(keys_of(value_subs_view(*m)) =~= m.keys());
                }
                r
            },
            None => {
                assert(keys_of(Seq::<(Seq<char>, SubValueModel)>::empty()) =~= Seq::empty());
                None
            },
        }
    }

    /// Whether the translation has any variation selector.
    pub fn has_variations(&self) -> (r: bool)
        ensures
            r == (self@.variations.len() > 0),
    {
        match &self.variations {
            Some(m) => !m.is_empty(),
            None => false,
        }
    }

    /// Whether the translation has any substitution.
    pub fn has_substitutions(&self) -> (r: bool)
        ensures
            r == (self@.substitutions.len() > 0),
    {
        match &self.substitutions {
            Some(m) => !m.is_empty(),
            None => false,
        }
    }
}

impl SubstitutionValue {
    /// The cases of a variation selector, where the substitution has the selector.
    pub fn variation_cases(&self, selector: &str) -> (r: Option<&ValueCases>)
        ensures
            match r {
                Some(c) => cases_under(self@.variations, selector@) == Some(value_cases_view(*c)),
                None => cases_under(self@.variations, selector@) is None,
            },
    {
        find_cases(&self.variations, selector)
    }

    /// Whether the substitution has any variation selector.
    pub fn has_variations(&self) -> (r: bool)
        ensures
            r == (self@.variations.len() > 0),
    {
        match &self.variations {
            Some(m) => !m.is_empty(),
            None => false,
        }
    }
}

} // verus!
