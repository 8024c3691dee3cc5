use crate::model::{
    Cases, CasesModel, CatalogModel, EntryModel, LocModel, SubModel, UnitModel, Variations,
    VariationsModel, XcLocalization, XcStringEntry, XcStringUnit, XcStringsFile, XcSubstitution,
    cases_view, loc_view, strings_view, sub_view, subs_view, text_view, unit_view,
    variations_view,
};
use crate::ordered_map::OrderedMap;
use crate::text::{all_white_space, str_equal, str_is_blank};
use crate::valid::{
    cases_keys_unique, catalog_keys_unique, entries_keys_unique, loc_keys_unique,
    sub_keys_unique, subs_keys_unique, variations_keys_unique,
};
use vstd::prelude::*;
use vstd::string::StringExecFns;

verus! {

/// The version of a catalog that names none.
pub open spec fn default_version_text() -> Seq<char> {
    "1.0"@
}

/// The source language of a catalog that names none.
pub open spec fn default_source_language_text() -> Seq<char> {
    "en"@
}

/// The state that a value without a state is given.
pub open spec fn translated_state() -> Seq<char> {
    "translated"@
}

/// The state of a placeholder that waits for its translation.
pub open spec fn needs_translation_state() -> Seq<char> {
    "needs-translation"@
}

/// The selector that varies a phrase by number.
pub open spec fn plural_selector() -> Seq<char> {
    "plural"@
}

/// The selector that varies a phrase by device.
pub open spec fn device_selector() -> Seq<char> {
    "device"@
}

pub fn default_version() -> (r: String)
    ensures
        r@ == default_version_text(),
{
    String::from_str("1.0")
}

pub fn default_source_language() -> (r: String)
    ensures
        r@ == default_source_language_text(),
{
    String::from_str("en")
}

/// Where a set of variation selectors stands: at the top of a localization or
/// of a substitution, or in a case below a `plural` or a `device` selector.
#[derive(Debug, Clone, Copy, PartialEq, Eq, Structural)]
pub enum VariationContext {
    TopLevel,
    NestedUnderPlural,
    NestedUnderDevice,
}

/// A text is blank when it is absent or holds only white space.
pub open spec fn is_blank_text(value: Option<Seq<char>>) -> bool {
    match value {
        Some(s) => all_white_space(s),
        None => true,
    }
}

/// A string unit after sanitizing: a blank value goes, a blank state goes,
/// and a value left without a state is given the state `translated`.
pub open spec fn sanitize_unit(u: UnitModel) -> UnitModel {
    let value = if is_blank_text(u.value) {
        None
    } else {
        u.value
    };
    let state = if is_blank_text(u.state) {
        None
    } else {
        u.state
    };
    UnitModel {
        state: if value is Some && state is None {
            Some(translated_state())
        } else {
            state
        },
        value,
    }
}

/// A string unit has content when it holds a value or a state.
pub open spec fn unit_has_content(u: UnitModel) -> bool {
    u.value is Some || u.state is Some
}

/// An optional string unit after normalizing: sanitized, and absent when
/// nothing is left in it.
pub open spec fn normalize_unit(u: Option<UnitModel>) -> Option<UnitModel> {
    match u {
        Some(x) => if unit_has_content(sanitize_unit(x)) {
            Some(sanitize_unit(x))
        } else {
            None
        },
        None => None,
    }
}

/// A localization is empty when its string unit has no content and it has
/// neither variations nor substitutions.
pub open spec fn loc_is_empty(l: LocModel) -> bool {
    &&& match l.unit {
        Some(u) => !unit_has_content(u),
        None => true,
    }
    &&& l.variations.len() == 0
    &&& l.substitutions.len() == 0
}

/// A substitution is empty when its string unit has no content and it has no
/// variations, argument number or format specifier.
pub open spec fn sub_is_empty(s: SubModel) -> bool {
    &&& match s.unit {
        Some(u) => !unit_has_content(u),
        None => true,
    }
    &&& s.variations.len() == 0
    &&& s.arg_num is None
    &&& s.format_specifier is None
}

/// The context of the cases below a selector that stands in context `ctx`.
pub open spec fn nested_context(ctx: VariationContext, selector: Seq<char>) -> VariationContext {
    match ctx {
        VariationContext::TopLevel => if selector == plural_selector() {
            VariationContext::NestedUnderPlural
        } else if selector == device_selector() {
            VariationContext::NestedUnderDevice
        } else {
            VariationContext::TopLevel
        },
        VariationContext::NestedUnderDevice => if selector == plural_selector() {
            VariationContext::NestedUnderPlural
        } else {
            VariationContext::NestedUnderDevice
        },
        VariationContext::NestedUnderPlural => VariationContext::NestedUnderPlural,
    }
}

/// Whether an ordered mapping holds a key.
pub open spec fn has_key<A>(s: Seq<(Seq<char>, A)>, key: Seq<char>) -> bool {
    exists|i: int| 0 <= i < s.len() && (#[trigger] s[i]).0 == key
}

/// The test that an entry stands under another key than `key`.
pub open spec fn other_key<A>(key: Seq<char>) -> spec_fn((Seq<char>, A)) -> bool {
    |e: (Seq<char>, A)| e.0 != key
}

/// The test that a selector has a case.
pub open spec fn has_case() -> spec_fn((Seq<char>, CasesModel)) -> bool {
    |e: (Seq<char>, CasesModel)| e.1.len() > 0
}

/// An ordered mapping without the entries of a key.
pub open spec fn without_key<A>(s: Seq<(Seq<char>, A)>, key: Seq<char>) -> Seq<(Seq<char>, A)> {
    s.filter(other_key(key))
}

/// Whether the `device` selector has to go from a set of selectors: at the top
/// when `plural` stands beside it, below `plural` or `device` always.
pub open spec fn device_excluded(vars: VariationsModel, ctx: VariationContext) -> bool {
    ctx != VariationContext::TopLevel || has_key(vars, plural_selector())
}

/// The selectors after the exclusion rule: see [`device_excluded`].
pub open spec fn drop_device(vars: VariationsModel, ctx: VariationContext) -> VariationsModel {
    if device_excluded(vars, ctx) {
        without_key(vars, device_selector())
    } else {
        vars
    }
}

/// The selectors that still have a case.
pub open spec fn drop_empty_selectors(vars: VariationsModel) -> VariationsModel {
    vars.filter(has_case())
}

/// A localization after normalizing in context `ctx`: its string unit
/// normalized, its variations normalized in that context, its substitutions
/// normalized and the empty ones dropped.
pub open spec fn normalize_loc(l: LocModel, ctx: VariationContext) -> LocModel
    decreases l, 0nat,
{
    LocModel {
        unit: normalize_unit(l.unit),
        substitutions: normalize_subs(l.substitutions),
        variations: normalize_variations(l.variations, ctx),
    }
}

/// A substitution after normalizing: its variations follow the rules of the top level.
pub open spec fn normalize_sub(s: SubModel) -> SubModel
    decreases s, 0nat,
{
    SubModel {
        arg_num: s.arg_num,
        format_specifier: s.format_specifier,
        unit: normalize_unit(s.unit),
        variations: normalize_variations(s.variations, VariationContext::TopLevel),
    }
}

/// The cases of a selector after normalizing each in context `ctx` and
/// dropping those left empty; the others keep their order.
pub open spec fn normalize_cases(cases: CasesModel, ctx: VariationContext) -> CasesModel
    decreases cases, 0nat,
{
    if cases.len() == 0 {
        Seq::empty()
    } else {
        let rest = normalize_cases(cases.drop_last(), ctx);
        let last = normalize_loc(cases.last().1, ctx);
        if loc_is_empty(last) {
            rest
        } else {
            rest.push((cases.last().0, last))
        }
    }
}

/// Each selector with its cases normalized in the context that the selector opens.
pub open spec fn normalize_selectors(vars: VariationsModel, ctx: VariationContext) -> VariationsModel
    decreases vars, 0nat,
{
    if vars.len() == 0 {
        Seq::empty()
    } else {
        normalize_selectors(vars.drop_last(), ctx).push(
            (vars.last().0, normalize_cases(vars.last().1, nested_context(ctx, vars.last().0))),
        )
    }
}

/// A set of variation selectors after normalizing in context `ctx`: the cases
/// normalized, `device` dropped where the context excludes it, and the
/// selectors that are left without a case dropped.
pub open spec fn normalize_variations(vars: VariationsModel, ctx: VariationContext) -> VariationsModel
    decreases vars, 1nat,
{
    drop_empty_selectors(drop_device(normalize_selectors(vars, ctx), ctx))
}

/// The substitutions after normalizing each and dropping those left empty.
pub open spec fn normalize_subs(subs: Seq<(Seq<char>, SubModel)>) -> Seq<(Seq<char>, SubModel)>
    decreases subs, 0nat,
{
    if subs.len() == 0 {
        Seq::empty()
    } else {
        let rest = normalize_subs(subs.drop_last());
        let last = normalize_sub(subs.last().1);
        if sub_is_empty(last) {
            rest
        } else {
            rest.push((subs.last().0, last))
        }
    }
}

/// An entry with its localizations normalized at the top level.
pub open spec fn normalize_entry(e: EntryModel) -> EntryModel {
    EntryModel {
        comment: e.comment,
        extraction_state: e.extraction_state,
        localizations: normalize_cases(e.localizations, VariationContext::TopLevel),
        should_translate: e.should_translate,
    }
}

/// An entry stays in the catalog while it has a localization, a comment, an
/// extraction state or a should-translate mark.
pub open spec fn entry_is_kept(e: EntryModel) -> bool {
    e.localizations.len() > 0 || e.comment is Some || e.extraction_state is Some
        || e.should_translate is Some
}

/// The entries after normalizing each and dropping those that are not kept.
pub open spec fn normalize_entries(entries: Seq<(Seq<char>, EntryModel)>) -> Seq<
    (Seq<char>, EntryModel),
>
    decreases entries.len(),
{
    if entries.len() == 0 {
        Seq::empty()
    } else {
        let rest = normalize_entries(entries.drop_last());
        let last = normalize_entry(entries.last().1);
        if entry_is_kept(last) {
            rest.push((entries.last().0, last))
        } else {
            rest
        }
    }
}

/// A catalog after normalizing: a blank version or source language replaced
/// by its default, every entry normalized, the entries left with nothing dropped.
pub open spec fn normalize_catalog(c: CatalogModel) -> CatalogModel {
    CatalogModel {
        raw: c.raw,
        version: if all_white_space(c.version) {
            default_version_text()
        } else {
            c.version
        },
        format_version: c.format_version,
        source_language: if all_white_space(c.source_language) {
            default_source_language_text()
        } else {
            c.source_language
        },
        strings: normalize_entries(c.strings),
    }
}

/// Whether an optional text is absent or holds only white space.
pub fn is_blank(value: &Option<String>) -> (r: bool)
    ensures
        r == is_blank_text(text_view(*value)),
{
    match value {
        Some(s) => str_is_blank(s.as_str()),
        None => true,
    }
}

/// Sanitizes a string unit in place: see [`sanitize_unit`].
pub fn sanitize_string_unit(unit: &mut XcStringUnit)
    ensures
        final(unit)@ == sanitize_unit(old(unit)@),
{
    if is_blank(&unit.value) {
        unit.value = None;
    }
    if is_blank(&unit.state) {
        unit.state = None;
    }
    if unit.value.is_some() && unit.state.is_none() {
        unit.state = Some(String::from_str("translated"));
    }
}

/// Whether a string unit holds a value or a state.
pub fn string_unit_has_content(unit: &XcStringUnit) -> (r: bool)
    ensures
        r == unit_has_content(unit@),
{
    unit.value.is_some() || unit.state.is_some()
}

/// Normalizes an optional string unit in place: see [`normalize_unit`].
pub fn normalize_string_unit(unit: &mut Option<XcStringUnit>)
    ensures
        unit_view(*final(unit)) == normalize_unit(unit_view(*old(unit))),
{
    let mut taken = unit.take();
    match taken {
        Some(mut u) => {
            sanitize_string_unit(&mut u);
            if string_unit_has_content(&u) {
                *unit = Some(u);
            }
        },
        None => {},
    }
}

/// Whether a localization is empty: see [`loc_is_empty`].
pub fn localization_is_empty(loc: &XcLocalization) -> (r: bool)
    ensures
        r == loc_is_empty(loc@),
{
    let unit_empty = match &loc.string_unit {
        Some(unit) => !string_unit_has_content(unit),
        None => true,
    };
    let no_variations = match &loc.variations {
        Some(m) => m.is_empty(),
        None => true,
    };
    let no_substitutions = match &loc.substitutions {
        Some(m) => m.is_empty(),
        None => true,
    };
    unit_empty && no_variations && no_substitutions
}

/// Whether a substitution is empty: see [`sub_is_empty`].
pub fn substitution_is_empty(sub: &XcSubstitution) -> (r: bool)
    ensures
        r == sub_is_empty(sub@),
{
    let unit_empty = match &sub.string_unit {
        Some(unit) => !string_unit_has_content(unit),
        None => true,
    };
    let no_variations = match &sub.variations {
        Some(m) => m.is_empty(),
        None => true,
    };
    unit_empty && no_variations && sub.arg_num.is_none() && sub.format_specifier.is_none()
}

/// The context of the cases below a selector: see [`nested_context`].
pub fn context_below(context: VariationContext, selector: &str) -> (r: VariationContext)
    ensures
        r == nested_context(context, selector@),
{
    match context {
        VariationContext::TopLevel => {
            if str_equal(selector, "plural") {
                VariationContext::NestedUnderPlural
            } else if str_equal(selector, "device") {
                VariationContext::NestedUnderDevice
            } else {
                VariationContext::TopLevel
            }
        },
        VariationContext::NestedUnderDevice => {
            if str_equal(selector, "plural") {
                VariationContext::NestedUnderPlural
            } else {
                VariationContext::NestedUnderDevice
            }
        },
        VariationContext::NestedUnderPlural => VariationContext::NestedUnderPlural,
    }
}

/// In an ordered mapping without duplicate keys, dropping the entries of a key
/// removes the one place where the key stands.
pub proof fn lemma_without_key<A>(s: Seq<(Seq<char>, A)>, key: Seq<char>, j: int)
    requires
        0 <= j < s.len(),
        s[j].0 == key,
        forall|a: int, b: int| 0 <= a < s.len() && 0 <= b < s.len() && a != b ==> s[a].0 != s[b].0,
    ensures
        without_key(s, key) == s.remove(j),
    decreases s.len(),
{
    reveal(Seq::filter);
    if j == s.len() - 1 {
        lemma_without_key_absent(s.drop_last(), key);
        assert(s.remove(j) =~= s.drop_last());
    } else {
        lemma_without_key(s.drop_last(), key, j);
        assert(s.last().0 != key);
        assert(s.remove(j) =~= s.drop_last().remove(j).push(s.last()));
    }
}

/// Dropping the entries of a key that an ordered mapping lacks changes nothing.
pub proof fn lemma_without_key_absent<A>(s: Seq<(Seq<char>, A)>, key: Seq<char>)
    requires
        !has_key(s, key),
    ensures
        without_key(s, key) == s,
    decreases s.len(),
{
    reveal(Seq::filter);
    if s.len() > 0 {
        assert forall|i: int| 0 <= i < s.drop_last().len() implies s.drop_last()[i].0 != key by {
            assert(s.drop_last()[i] == s[i]);
        }
        lemma_without_key_absent(s.drop_last(), key);
        assert(s.last() == s[s.len() - 1]);
        assert(s =~= s.drop_last().push(s.last()));
    }
}

/// Normalizes the cases of a selector in place: see [`normalize_cases`].
pub fn retain_normalized_cases(cases: &mut Cases, context: VariationContext)
    ensures
        final(cases).wf(),
        cases_view(*final(cases)) == normalize_cases(cases_view(*old(cases)), context),
        cases_keys_unique(cases_view(*final(cases))),
    decreases *old(cases),
{
    let ghost orig = *cases;
    let ghost orig_view = cases_view(orig);
    let mut remaining = cases.len();
    let mut i: usize = 0;
    let ghost mut p: int = 0;
    assert(cases_view(*cases).take(0) =~= normalize_cases(orig_view.take(0), context));
    while remaining > 0
        invariant
            orig == *old(cases),
            orig_view == cases_view(orig),
            cases.wf(),
            orig.wf(),
            0 <= p <= orig.values().len(),
            remaining == orig.values().len() - p,
            cases.values().len() == i + remaining,
            i + remaining <= usize::MAX,
            cases_view(*cases).take(i as int) == normalize_cases(orig_view.take(p), context),
            forall|k: int| 0 <= k < i ==> loc_keys_unique(loc_view(#[trigger] cases.values()[k])),
            forall|t: int|
                #![trigger cases.keys()[t]]
                #![trigger cases.values()[t]]
                i <= t < cases.values().len() ==> cases.keys()[t] == orig.keys()[t - i + p]
                    && cases.values()[t] == orig.values()[t - i + p],
        decreases remaining,
    {
        proof {
            orig.lemma_decreases();
        }
        let ghost before = *cases;
        let nested = cases.value_at_mut(i);
        assert(*nested == orig.values()[p]);
        let empty = normalize_localization_inner(nested, context);
        let ghost mid = *cases;
        if empty {
            cases.shift_remove_index(i);
        } else {
            i += 1;
        }
        remaining -= 1;
        proof {
            p = p + 1;
            let next = orig_view.take(p);
            assert(next.drop_last() =~= orig_view.take(p - 1));
            assert(next.last() == (orig.keys()[p - 1], loc_view(orig.values()[p - 1])));
            assert(cases_view(mid).take(i as int) =~= normalize_cases(next, context)) by {
                if !empty {
                    assert(cases_view(mid).take(i as int) =~= cases_view(before).take(i - 1).push(
                        cases_view(mid)[i - 1],
                    ));
                } else {
                    assert(cases_view(mid).take(i as int) =~= cases_view(before).take(i as int));
                }
            }
            assert(cases_view(*cases).take(i as int) =~= cases_view(mid).take(i as int));
        }
    }
    proof {
        assert(cases_view(*cases).take(i as int) =~= cases_view(*cases));
        assert(orig_view.take(p) =~= orig_view);
        assert(crate::update::keys_of(cases_view(*cases)) =~= cases.keys());
    }
}

/// Normalizes substitutions in place: see [`normalize_subs`].
pub fn retain_normalized_substitutions(subs: &mut OrderedMap<XcSubstitution>)
    ensures
        final(subs).wf(),
        subs_view(*final(subs)) == normalize_subs(subs_view(*old(subs))),
        subs_keys_unique(subs_view(*final(subs))),
    decreases *old(subs),
{
    let ghost orig = *subs;
    let ghost orig_view = subs_view(orig);
    let mut remaining = subs.len();
    let mut i: usize = 0;
    let ghost mut p: int = 0;
    assert(subs_view(*subs).take(0) =~= normalize_subs(orig_view.take(0)));
    while remaining > 0
        invariant
            orig == *old(subs),
            orig_view == subs_view(orig),
            subs.wf(),
            orig.wf(),
            0 <= p <= orig.values().len(),
            remaining == orig.values().len() - p,
            subs.values().len() == i + remaining,
            i + remaining <= usize::MAX,
            subs_view(*subs).take(i as int) == normalize_subs(orig_view.take(p)),
            forall|k: int| 0 <= k < i ==> sub_keys_unique(sub_view(#[trigger] subs.values()[k])),
            forall|t: int|
                #![trigger subs.keys()[t]]
                #![trigger subs.values()[t]]
                i <= t < subs.values().len() ==> subs.keys()[t] == orig.keys()[t - i + p]
                    && subs.values()[t] == orig.values()[t - i + p],
        decreases remaining,
    {
        proof {
            orig.lemma_decreases();
        }
        let ghost before = *subs;
        let nested = subs.value_at_mut(i);
        assert(*nested == orig.values()[p]);
        let empty = normalize_substitution(nested);
        let ghost mid = *subs;
        if empty {
            subs.shift_remove_index(i);
        } else {
            i += 1;
        }
        remaining -= 1;
        proof {
            p = p + 1;
            let next = orig_view.take(p);
            assert(next.drop_last() =~= orig_view.take(p - 1));
            assert(next.last() == (orig.keys()[p - 1], sub_view(orig.values()[p - 1])));
            assert(subs_view(mid).take(i as int) =~= normalize_subs(next)) by {
                if !empty {
                    assert(subs_view(mid).take(i as int) =~= subs_view(before).take(i - 1).push(
                        subs_view(mid)[i - 1],
                    ));
                } else {
                    assert(subs_view(mid).take(i as int) =~= subs_view(before).take(i as int));
                }
            }
            assert(subs_view(*subs).take(i as int) =~= subs_view(mid).take(i as int));
        }
    }
    proof {
        assert(subs_view(*subs).take(i as int) =~= subs_view(*subs));
        assert(orig_view.take(p) =~= orig_view);
        assert(crate::update::keys_of(subs_view(*subs)) =~= subs.keys());
    }
}

/// Normalizes a set of variation selectors in place: see [`normalize_variations`].
pub fn validate_and_normalize_variations(variations: &mut Variations, context: VariationContext)
    ensures
        final(variations).wf(),
        variations_view(*final(variations)) == normalize_variations(
            variations_view(*old(variations)),
            context,
        ),
        variations_keys_unique(variations_view(*final(variations))),
    decreases *old(variations),
{
    let ghost orig = *variations;
    let ghost orig_view = variations_view(orig);
    let n = variations.len();
    let mut i: usize = 0;
    assert(variations_view(*variations).take(0) =~= normalize_selectors(
        orig_view.take(0),
        context,
    ));
    while i < n
        invariant
            orig == *old(variations),
            orig_view == variations_view(orig),
            variations.wf(),
            orig.wf(),
            n == orig.values().len(),
            n == variations.values().len(),
            i <= n,
            variations.keys() == orig.keys(),
            variations_view(*variations).take(i as int) == normalize_selectors(
                orig_view.take(i as int),
                context,
            ),
            forall|t: int| i <= t < n ==> variations.values()[t] == orig.values()[t],
            forall|k: int|
                0 <= k < i ==> cases_keys_unique(cases_view(#[trigger] variations.values()[k])),
        decreases n - i,
    {
        proof {
            orig.lemma_decreases();
        }
        let below = context_below(context, variations.key_at(i).as_str());
        let ghost before = *variations;
        let cases = variations.value_at_mut(i);
        assert(*cases == orig.values()[i as int]);
        retain_normalized_cases(cases, below);
        i += 1;
        proof {
            let next = orig_view.take(i as int);
            assert(next.drop_last() =~= orig_view.take(i - 1));
            assert(next.last() == (orig.keys()[i - 1], cases_view(orig.values()[i - 1])));
            assert(variations_view(*variations).take(i as int) =~= variations_view(before).take(
                i - 1,
            ).push(variations_view(*variations)[i - 1]));
        }
    }
    proof {
        assert(variations_view(*variations).take(n as int) =~= variations_view(*variations));
        assert(orig_view.take(n as int) =~= orig_view);
    }
    let ghost mapped = variations_view(*variations);
    let exclude = match context {
        VariationContext::TopLevel => variations.contains_key("plural"),
        _ => true,
    };
    proof {
        lemma_has_key_variations(*variations, plural_selector());
        lemma_has_key_variations(*variations, device_selector());
    }
    if exclude {
        let ghost before = *variations;
        let removed = variations.shift_remove("device");
        proof {
            if removed is Some {
                let j = before.position(device_selector());
                before.keys().index_of_first_ensures(device_selector());
                lemma_without_key(mapped, device_selector(), j);
                assert(variations_view(*variations) =~= mapped.remove(j));
            } else {
                lemma_without_key_absent(mapped, device_selector());
            }
        }
    }
    assert(variations_view(*variations) == drop_device(mapped, context));
    assert(forall|k: int|
        0 <= k < variations.values().len() ==> cases_keys_unique(
            cases_view(#[trigger] variations.values()[k]),
        ));
    let ghost dropped = variations_view(*variations);
    let ghost start = *variations;
    let mut remaining = variations.len();
    let mut k: usize = 0;
    let ghost mut p: int = 0;
    proof {
        reveal(Seq::filter);
        assert(variations_view(*variations).take(0) =~= drop_empty_selectors(dropped.take(0)));
    }
    while remaining > 0
        invariant
            dropped == variations_view(start),
            variations.wf(),
            start.wf(),
            0 <= p <= start.values().len(),
            remaining == start.values().len() - p,
            variations.values().len() == k + remaining,
            k + remaining <= usize::MAX,
            variations_view(*variations).take(k as int) == drop_empty_selectors(dropped.take(p)),
            forall|t: int|
                0 <= t < variations.values().len() ==> cases_keys_unique(
                    cases_view(#[trigger] variations.values()[t]),
                ),
            forall|t: int|
                #![trigger variations.keys()[t]]
                #![trigger variations.values()[t]]
                k <= t < variations.values().len() ==> variations.keys()[t] == start.keys()[t - k + p]
                    && variations.values()[t] == start.values()[t - k + p],
        decreases remaining,
    {
        let ghost before = *variations;
        if variations.value_at(k).is_empty() {
            variations.shift_remove_index(k);
        } else {
            k += 1;
        }
        remaining -= 1;
        proof {
            reveal(Seq::filter);
            p = p + 1;
            let next = dropped.take(p);
            assert(next.drop_last() =~= dropped.take(p - 1));
            assert(next.last() == (start.keys()[p - 1], cases_view(start.values()[p - 1])));
            assert(variations_view(*variations).take(k as int) =~= drop_empty_selectors(next)) by {
                if variations.values().len() == before.values().len() {
                    assert(variations_view(*variations).take(k as int) =~= variations_view(
                        before,
                    ).take(k - 1).push(variations_view(before)[k - 1]));
                } else {
                    assert(variations_view(*variations).take(k as int) =~= variations_view(
                        before,
                    ).take(k as int));
                }
            }
        }
    }
    proof {
        assert(variations_view(*variations).take(k as int) =~= variations_view(*variations));
        assert(dropped.take(p) =~= dropped);
        assert(crate::update::keys_of(variations_view(*variations)) =~= variations.keys());
    }
}

/// The keys of a map of selectors are the keys of its model.
pub proof fn lemma_has_key_variations(m: Variations, key: Seq<char>)
    requires
        m.wf(),
    ensures
        has_key(variations_view(m), key) == m.keys().contains(key),
        forall|a: int, b: int|
            0 <= a < variations_view(m).len() && 0 <= b < variations_view(m).len() && a != b
                ==> variations_view(m)[a].0 != variations_view(m)[b].0,
{
    let v = variations_view(m);
    if m.keys().contains(key) {
        let i = choose|i: int| 0 <= i < m.keys().len() && m.keys()[i] == key;
        assert(v[i].0 == key);
    }
    if has_key(v, key) {
        let i = choose|i: int| 0 <= i < v.len() && (#[trigger] v[i]).0 == key;
        assert(m.keys()[i] == key);
    }
}

/// Normalizes a substitution in place and reports whether it is left empty:
/// see [`normalize_sub`].
pub fn normalize_substitution(sub: &mut XcSubstitution) -> (empty: bool)
    ensures
        sub_view(*final(sub)) == normalize_sub(sub_view(*old(sub))),
        empty == sub_is_empty(sub_view(*final(sub))),
        sub_keys_unique(sub_view(*final(sub))),
    decreases *old(sub),
{
    normalize_string_unit(&mut sub.string_unit);
    match &mut sub.variations {
        Some(variations) => {
            assert(decreases_to!(old(sub).variations => old(sub).variations->0));
            validate_and_normalize_variations(variations, VariationContext::TopLevel);
        },
        None => {
            proof {
                lemma_normalize_no_variations(VariationContext::TopLevel);
            }
        },
    }
    substitution_is_empty(sub)
}

/// Normalizes a localization in place at the top level and reports whether it
/// is left empty.
pub fn normalize_localization(loc: &mut XcLocalization) -> (empty: bool)
    ensures
        loc_view(*final(loc)) == normalize_loc(loc_view(*old(loc)), VariationContext::TopLevel),
        empty == loc_is_empty(loc_view(*final(loc))),
        loc_keys_unique(loc_view(*final(loc))),
{
    normalize_localization_inner(loc, VariationContext::TopLevel)
}

/// Normalizes a localization in place in a context and reports whether it is
/// left empty: see [`normalize_loc`].
pub fn normalize_localization_inner(loc: &mut XcLocalization, context: VariationContext) -> (empty:
    bool)
    ensures
        loc_view(*final(loc)) == normalize_loc(loc_view(*old(loc)), context),
        empty == loc_is_empty(loc_view(*final(loc))),
        loc_keys_unique(loc_view(*final(loc))),
    decreases *old(loc),
{
    normalize_string_unit(&mut loc.string_unit);
    match &mut loc.variations {
        Some(variations) => {
            assert(decreases_to!(old(loc).variations => old(loc).variations->0));
            validate_and_normalize_variations(variations, context);
        },
        None => {
            proof {
                lemma_normalize_no_variations(context);
            }
        },
    }
    match &mut loc.substitutions {
        Some(subs) => {
            assert(decreases_to!(old(loc).substitutions => old(loc).substitutions->0));
            retain_normalized_substitutions(subs);
        },
        None => {},
    }
    localization_is_empty(loc)
}

/// Normalizes an entry in place and reports whether the catalog keeps it:
/// see [`normalize_entry`] and [`entry_is_kept`].
pub fn normalize_string_entry(entry: &mut XcStringEntry) -> (keep: bool)
    ensures
        final(entry)@ == normalize_entry(old(entry)@),
        keep == entry_is_kept(final(entry)@),
        cases_keys_unique(final(entry)@.localizations),
{
    retain_normalized_cases(&mut entry.localizations, VariationContext::TopLevel);
    !entry.localizations.is_empty() || entry.comment.is_some() || entry.extraction_state.is_some()
        || entry.should_translate.is_some()
}

/// Normalizes the entries of a catalog in place: see [`normalize_entries`].
pub fn retain_normalized_entries(entries: &mut OrderedMap<XcStringEntry>)
    ensures
        final(entries).wf(),
        strings_view(*final(entries)) == normalize_entries(strings_view(*old(entries))),
        entries_keys_unique(strings_view(*final(entries))),
{
    let ghost orig = *entries;
    let ghost orig_view = strings_view(orig);
    let mut remaining = entries.len();
    let mut i: usize = 0;
    let ghost mut p: int = 0;
    assert(strings_view(*entries).take(0) =~= normalize_entries(orig_view.take(0)));
    while remaining > 0
        invariant
            orig_view == strings_view(orig),
            entries.wf(),
            orig.wf(),
            0 <= p <= orig.values().len(),
            remaining == orig.values().len() - p,
            entries.values().len() == i + remaining,
            i + remaining <= usize::MAX,
            strings_view(*entries).take(i as int) == normalize_entries(orig_view.take(p)),
            forall|k: int|
                0 <= k < i ==> cases_keys_unique((#[trigger] entries.values()[k])@.localizations),
            forall|t: int|
                #![trigger entries.keys()[t]]
                #![trigger entries.values()[t]]
                i <= t < entries.values().len() ==> entries.keys()[t] == orig.keys()[t - i + p]
                    && entries.values()[t] == orig.values()[t - i + p],
        decreases remaining,
    {
        let ghost before = *entries;
        let entry = entries.value_at_mut(i);
        let keep = normalize_string_entry(entry);
        let ghost mid = *entries;
        if keep {
            i += 1;
        } else {
            entries.shift_remove_index(i);
        }
        remaining -= 1;
        proof {
            p = p + 1;
            let next = orig_view.take(p);
            assert(next.drop_last() =~= orig_view.take(p - 1));
            assert(next.last() == (orig.keys()[p - 1], orig.values()[p - 1]@));
            assert(strings_view(mid).take(i as int) =~= normalize_entries(next)) by {
                if keep {
                    assert(strings_view(mid).take(i as int) =~= strings_view(before).take(
                        i - 1,
                    ).push(strings_view(mid)[i - 1]));
                } else {
                    assert(strings_view(mid).take(i as int) =~= strings_view(before).take(
                        i as int,
                    ));
                }
            }
            assert(strings_view(*entries).take(i as int) =~= strings_view(mid).take(i as int));
        }
    }
    proof {
        assert(strings_view(*entries).take(i as int) =~= strings_view(*entries));
        assert(orig_view.take(p) =~= orig_view);
        assert(crate::update::keys_of(strings_view(*entries)) =~= entries.keys());
    }
}

/// Normalizes a catalog in place: see [`normalize_catalog`].
pub fn normalize_strings_file(doc: &mut XcStringsFile)
    ensures
        final(doc)@ == normalize_catalog(old(doc)@),
        catalog_keys_unique(final(doc)@),
{
    let _ = doc.raw.len();
    proof {
        assert(crate::update::keys_of(crate::model::raw_view(doc.raw)) =~= doc.raw.keys());
    }
    if str_is_blank(doc.version.as_str()) {
        doc.version = default_version();
    }
    if str_is_blank(doc.source_language.as_str()) {
        doc.source_language = default_source_language();
    }
    retain_normalized_entries(&mut doc.strings);
}

/// Normalizing no variations leaves none.
pub proof fn lemma_normalize_no_variations(context: VariationContext)
    ensures
        normalize_variations(Seq::empty(), context) == Seq::<(Seq<char>, CasesModel)>::empty(),
{
    reveal(Seq::filter);
    let e = Seq::<(Seq<char>, CasesModel)>::empty();
    assert(normalize_selectors(e, context) =~= e);
    assert(without_key(e, device_selector()) =~= e);
    assert(drop_empty_selectors(e) =~= e);
}

} // verus!
