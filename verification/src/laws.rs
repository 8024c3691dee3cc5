use crate::catalog::{
    default_entry, entry_or_default, language_added, language_removed, loc_or_default,
    placeholder_loc, upserted_loc, upserted_strings, with_localizations, with_placeholder,
    with_strings,
};
use crate::error::ErrorModel;
use crate::languages::{entry_has_language, language_in_entries};
use crate::model::{
    CasesModel, CatalogModel, EntryModel, LocModel, SubModel, UnitModel, VariationsModel,
    empty_loc, empty_sub,
};
use crate::normalize::{
    VariationContext, device_excluded, device_selector, drop_device, drop_empty_selectors,
    entry_is_kept, has_case, has_key, loc_is_empty, needs_translation_state, nested_context,
    normalize_cases, normalize_catalog, normalize_entries, normalize_entry, normalize_loc,
    normalize_selectors, normalize_sub, normalize_subs, normalize_unit, normalize_variations,
    other_key, plural_selector, sub_is_empty,
};
use crate::normalize_laws::{
    lemma_filter_member, lemma_loc_idempotent, lemma_sanitize_idempotent, lemma_selectors_index,
    lemma_variations_idempotent,
};
use crate::store::{add_language_error, is_valid, remove_language_error, translation_of};
use crate::text::{all_white_space, is_white_space, trimmed};
use crate::update::{
    FieldUpdate, SubUpdateModel, UpdateModel, apply_sub_update_spec, apply_update_spec, keys_of,
    lookup, merged_cases, merged_subs, merged_unit, put, subs_built, subs_left, take_out,
    with_subs,
};
use crate::valid::keys_unique;
use crate::value::{ValueModel, value_of_loc};
use vstd::prelude::*;

verus! {

/// Whether a set of selectors obeys the exclusion rule of its context: at
/// the top `plural` and `device` do not stand together; below `plural` or
/// `device` there is no `device`.
pub open spec fn selectors_allowed(vars: VariationsModel, ctx: VariationContext) -> bool {
    match ctx {
        VariationContext::TopLevel => !(has_key(vars, plural_selector()) && has_key(
            vars,
            device_selector(),
        )),
        _ => !has_key(vars, device_selector()),
    }
}

/// Whether a localization that stands in a context obeys the exclusion rule
/// in all its variations, at every depth.
pub open spec fn loc_allowed(l: LocModel, ctx: VariationContext) -> bool
    decreases l, 0nat,
{
    variations_allowed(l.variations, ctx) && subs_allowed(l.substitutions)
}

/// Whether the selectors of a context obey the exclusion rule, and so does
/// every case below them.
pub open spec fn variations_allowed(vars: VariationsModel, ctx: VariationContext) -> bool
    decreases vars, 1nat,
{
    selectors_allowed(vars, ctx) && forall|i: int|
        0 <= i < vars.len() ==> cases_allowed(
            (#[trigger] vars[i]).1,
            nested_context(ctx, vars[i].0),
        )
}

/// Whether every case of a selector obeys the exclusion rule.
pub open spec fn cases_allowed(cases: CasesModel, ctx: VariationContext) -> bool
    decreases cases, 0nat,
{
    forall|j: int| 0 <= j < cases.len() ==> loc_allowed((#[trigger] cases[j]).1, ctx)
}

/// Whether the variations of every substitution obey the exclusion rule.
pub open spec fn subs_allowed(subs: Seq<(Seq<char>, SubModel)>) -> bool
    decreases subs, 0nat,
{
    forall|i: int|
        0 <= i < subs.len() ==> variations_allowed(
            (#[trigger] subs[i]).1.variations,
            VariationContext::TopLevel,
        )
}

/// Variation exclusivity, at one level: normalized selectors obey the
/// exclusion rule of their context.
pub proof fn lemma_normalized_selectors_allowed(vars: VariationsModel, ctx: VariationContext)
    ensures
        selectors_allowed(normalize_variations(vars, ctx), ctx),
{
    let no_device = other_key::<CasesModel>(device_selector());
    let s = normalize_selectors(vars, ctx);
    let d = drop_device(s, ctx);
    let w = drop_empty_selectors(d);
    assert forall|i: int| 0 <= i < w.len() implies d.contains(#[trigger] w[i]) by {
        lemma_filter_member(d, has_case(), i);
    }
    if device_excluded(s, ctx) {
        if has_key(w, device_selector()) {
            let i = choose|i: int| 0 <= i < w.len() && (#[trigger] w[i]).0 == device_selector();
            let j = choose|j: int| 0 <= j < d.len() && d[j] == w[i];
            lemma_filter_member(s, no_device, j);
        }
    } else {
        if has_key(w, plural_selector()) {
            let i = choose|i: int| 0 <= i < w.len() && (#[trigger] w[i]).0 == plural_selector();
            let j = choose|j: int| 0 <= j < d.len() && d[j] == w[i];
            assert(s[j].0 == plural_selector());
        }
    }
}

/// Each case that normalizing leaves is the normalized form of a case that was there.
pub proof fn lemma_normalized_case_origin(cases: CasesModel, ctx: VariationContext, j: int)
    requires
        0 <= j < normalize_cases(cases, ctx).len(),
    ensures
        exists|i: int|
            0 <= i < cases.len() && normalize_cases(cases, ctx)[j] == (
                (#[trigger] cases[i]).0,
                normalize_loc(cases[i].1, ctx),
            ),
        !loc_is_empty(normalize_cases(cases, ctx)[j].1),
    decreases cases.len(),
{
    if cases.len() > 0 {
        let rest = normalize_cases(cases.drop_last(), ctx);
        if j < rest.len() {
            lemma_normalized_case_origin(cases.drop_last(), ctx, j);
            let i = choose|i: int|
                0 <= i < cases.drop_last().len() && rest[j] == (
                    (#[trigger] cases.drop_last()[i]).0,
                    normalize_loc(cases.drop_last()[i].1, ctx),
                );
            assert(cases[i] == cases.drop_last()[i]);
        } else {
            assert(cases[cases.len() - 1] == cases.last());
        }
    }
}

/// Each substitution that normalizing leaves is the normalized form of one that was there.
pub proof fn lemma_normalized_sub_origin(subs: Seq<(Seq<char>, SubModel)>, j: int)
    requires
        0 <= j < normalize_subs(subs).len(),
    ensures
        exists|i: int|
            0 <= i < subs.len() && normalize_subs(subs)[j] == (
                (#[trigger] subs[i]).0,
                normalize_sub(subs[i].1),
            ),
    decreases subs.len(),
{
    if subs.len() > 0 {
        let rest = normalize_subs(subs.drop_last());
        if j < rest.len() {
            lemma_normalized_sub_origin(subs.drop_last(), j);
            let i = choose|i: int|
                0 <= i < subs.drop_last().len() && rest[j] == (
                    (#[trigger] subs.drop_last()[i]).0,
                    normalize_sub(subs.drop_last()[i].1),
                );
            assert(subs[i] == subs.drop_last()[i]);
        } else {
            assert(subs[subs.len() - 1] == subs.last());
        }
    }
}

/// Variation exclusivity, at every depth: a normalized localization obeys
/// the exclusion rule in all its variations.
pub proof fn lemma_normalized_loc_allowed(l: LocModel, ctx: VariationContext)
    ensures
        loc_allowed(normalize_loc(l, ctx), ctx),
    decreases l, 0nat,
{
    lemma_normalized_variations_allowed(l.variations, ctx);
    let subs = normalize_subs(l.substitutions);
    assert forall|j: int| 0 <= j < subs.len() implies variations_allowed(
        (#[trigger] subs[j]).1.variations,
        VariationContext::TopLevel,
    ) by {
        lemma_normalized_sub_origin(l.substitutions, j);
        let i = choose|i: int|
            0 <= i < l.substitutions.len() && subs[j] == (
                (#[trigger] l.substitutions[i]).0,
                normalize_sub(l.substitutions[i].1),
            );
        lemma_normalized_variations_allowed(
            l.substitutions[i].1.variations,
            VariationContext::TopLevel,
        );
    }
}

/// Variation exclusivity, at every depth: normalized variations obey the
/// exclusion rule, and so does every case below them.
pub proof fn lemma_normalized_variations_allowed(vars: VariationsModel, ctx: VariationContext)
    ensures
        variations_allowed(normalize_variations(vars, ctx), ctx),
    decreases vars, 1nat,
{
    let no_device = other_key::<CasesModel>(device_selector());
    let s = normalize_selectors(vars, ctx);
    let d = drop_device(s, ctx);
    let w = drop_empty_selectors(d);
    lemma_normalized_selectors_allowed(vars, ctx);
    lemma_selectors_index(vars, ctx);
    assert forall|i: int| 0 <= i < w.len() implies cases_allowed(
        (#[trigger] w[i]).1,
        nested_context(ctx, w[i].0),
    ) by {
        lemma_filter_member(d, has_case(), i);
        if device_excluded(s, ctx) {
            let j = choose|j: int| 0 <= j < d.len() && d[j] == w[i];
            lemma_filter_member(s, no_device, j);
        }
        let k = choose|k: int| 0 <= k < s.len() && s[k] == w[i];
        let below = nested_context(ctx, vars[k].0);
        let cases = w[i].1;
        assert(cases == normalize_cases(vars[k].1, below));
        assert forall|j: int| 0 <= j < cases.len() implies loc_allowed(
            (#[trigger] cases[j]).1,
            below,
        ) by {
            lemma_normalized_case_origin(vars[k].1, below, j);
            let m = choose|m: int|
                0 <= m < vars[k].1.len() && cases[j] == (
                    (#[trigger] vars[k].1[m]).0,
                    normalize_loc(vars[k].1[m].1, below),
                );
            lemma_normalized_loc_allowed(vars[k].1[m].1, below);
        }
    }
}

/// Variation exclusivity of an update: whatever selectors an update of the
/// variations introduces, the localization is left without `device` beside
/// `plural`, and every case below obeys the exclusion rule.
pub proof fn lemma_update_selectors_allowed(target: LocModel, update: UpdateModel)
    requires
        update.variations is Some,
    ensures
        variations_allowed(apply_update_spec(target, update).variations, VariationContext::TopLevel),
{
    let changes = update.variations->0;
    lemma_normalized_variations_allowed(
        crate::update::with_selectors(
            crate::update::selectors_built(target.variations, changes),
            crate::update::selectors_left(target.variations, changes),
        ),
        VariationContext::TopLevel,
    );
}

/// Where `plural` stands with a case after the cases are normalized, it is
/// retained: the exclusion rule drops `device`, never `plural`.
pub proof fn lemma_plural_retained(vars: VariationsModel, ctx: VariationContext, i: int)
    requires
        0 <= i < vars.len(),
        vars[i].0 == plural_selector(),
        normalize_cases(vars[i].1, nested_context(ctx, vars[i].0)).len() > 0,
    ensures
        has_key(normalize_variations(vars, ctx), plural_selector()),
{
    let no_device = other_key::<CasesModel>(device_selector());
    let s = normalize_selectors(vars, ctx);
    let d = drop_device(s, ctx);
    let w = drop_empty_selectors(d);
    lemma_selectors_index(vars, ctx);
    reveal_strlit("plural");
    reveal_strlit("device");
    assert(plural_selector() != device_selector()) by {
        assert(plural_selector()[0] == 'p');
        assert(device_selector()[0] == 'd');
    }
    assert(no_device(s[i]));
    s.filter_lemma(no_device);
    assert(d.contains(s[i]));
    let j = choose|j: int| 0 <= j < d.len() && d[j] == s[i];
    d.filter_lemma(has_case());
    assert(has_case()(d[j]));
    assert(w.contains(d[j]));
    let k = choose|k: int| 0 <= k < w.len() && w[k] == d[j];
    assert(w[k].0 == plural_selector());
}

/// Tri-state clearing of the value: an update that clears the value leaves
/// no value, whatever it asks of the state.
pub proof fn lemma_clear_removes_value(unit: Option<UnitModel>, state: FieldUpdate<Seq<char>>)
    ensures
        match merged_unit(unit, state, FieldUpdate::Clear) {
            Some(u) => u.value is None,
            None => true,
        },
{
}

/// Tri-state clearing leaves the state alone: an update that clears the
/// value and does not name the state keeps a state that is not blank.
pub proof fn lemma_clear_keeps_state(unit: UnitModel)
    requires
        !crate::normalize::is_blank_text(unit.state),
    ensures
        merged_unit(Some(unit), FieldUpdate::Unchanged, FieldUpdate::Clear) == Some(
            UnitModel { state: unit.state, value: None },
        ),
{
}

/// An update that clears the value and the state leaves no string unit.
pub proof fn lemma_clear_both_removes_unit(unit: Option<UnitModel>)
    ensures
        merged_unit(unit, FieldUpdate::Clear, FieldUpdate::Clear) is None,
{
}

/// The update that clears the value and the state and names nothing else.
pub open spec fn clearing_update() -> UpdateModel {
    UpdateModel {
        state: FieldUpdate::Clear,
        value: FieldUpdate::Clear,
        substitutions: None,
        variations: None,
    }
}

/// A case that is cleared and has neither variations nor substitutions is
/// pruned: the update of the cases removes it.
pub proof fn lemma_cleared_case_pruned(entry: CasesModel, case: Seq<char>)
    requires
        match lookup(entry, case) {
            Some(l) => l.variations.len() == 0 && l.substitutions.len() == 0,
            None => true,
        },
    ensures
        merged_cases(entry, seq![(case, clearing_update())]) == take_out(entry, case),
{
    let changes = seq![(case, clearing_update())];
    assert(changes.drop_last() =~= Seq::empty());
    assert(merged_cases(entry, changes.drop_last()) == entry);
    assert(changes.last() == (case, clearing_update()));
    let nested = match lookup(entry, case) {
        Some(l) => l,
        None => empty_loc(),
    };
    let updated = apply_update_spec(nested, clearing_update());
    assert(updated.unit is None);
    assert(updated.variations =~= Seq::empty());
    assert(updated.substitutions =~= Seq::empty());
    assert(loc_is_empty(updated));
}

/// Order preservation of an update: the entries keep their order; the entry
/// of a new key comes last.
pub proof fn lemma_upsert_keeps_order(
    strings: Seq<(Seq<char>, EntryModel)>,
    key: Seq<char>,
    language: Seq<char>,
    update: UpdateModel,
)
    ensures
        keys_of(upserted_strings(strings, key, language, update)) == (if keys_of(strings).contains(
            key,
        ) {
            keys_of(strings)
        } else {
            keys_of(strings).push(key)
        }),
{
    let after = upserted_strings(strings, key, language, update);
    if keys_of(strings).contains(key) {
        let i = keys_of(strings).index_of(key);
        assert(keys_of(strings)[i] == key);
        assert(keys_of(after) =~= keys_of(strings));
    } else {
        assert(keys_of(after) =~= keys_of(strings).push(key));
    }
}

/// The test that an entry is kept once it is normalized.
pub open spec fn kept_when_normalized() -> spec_fn((Seq<char>, EntryModel)) -> bool {
    |e: (Seq<char>, EntryModel)| entry_is_kept(normalize_entry(e.1))
}

/// Order preservation of normalizing: the keys that are left stand in the
/// order in which they stood; normalizing drops entries and moves none.
pub proof fn lemma_normalize_keeps_order(strings: Seq<(Seq<char>, EntryModel)>)
    ensures
        keys_of(normalize_entries(strings)) == keys_of(strings.filter(kept_when_normalized())),
    decreases strings.len(),
{
    reveal(Seq::filter);
    if strings.len() == 0 {
        assert(keys_of(normalize_entries(strings)) =~= keys_of(
            strings.filter(kept_when_normalized()),
        ));
    } else {
        lemma_normalize_keeps_order(strings.drop_last());
        let rest = normalize_entries(strings.drop_last());
        let kept = strings.drop_last().filter(kept_when_normalized());
        if entry_is_kept(normalize_entry(strings.last().1)) {
            assert(keys_of(rest.push((strings.last().0, normalize_entry(strings.last().1))))
                =~= keys_of(rest).push(strings.last().0));
            assert(keys_of(kept.push(strings.last())) =~= keys_of(kept).push(strings.last().0));
        }
    }
}

/// A catalog as the library holds it: no key stands twice among the
/// entries, no language twice among the localizations of an entry.
pub open spec fn catalog_valid(c: CatalogModel) -> bool {
    &&& keys_unique(c.strings)
    &&& forall|i: int|
        0 <= i < c.strings.len() ==> keys_unique((#[trigger] c.strings[i]).1.localizations)
}

/// In an ordered mapping without duplicate keys, what is looked up under the
/// key of an entry is that entry.
pub proof fn lemma_lookup_at<A>(s: Seq<(Seq<char>, A)>, i: int)
    requires
        keys_unique(s),
        0 <= i < s.len(),
    ensures
        keys_of(s).contains(s[i].0),
        keys_of(s).index_of(s[i].0) == i,
        lookup(s, s[i].0) == Some(s[i].1),
{
    let keys = keys_of(s);
    assert(keys[i] == s[i].0);
    assert(keys.contains(s[i].0));
    keys.index_of_first_ensures(s[i].0);
    let j = keys.index_of(s[i].0);
    assert(keys[j] == keys[i]);
}

/// Normalizing cases brings no new key and no key twice.
pub proof fn lemma_normalize_cases_keys(cases: CasesModel, ctx: VariationContext)
    ensures
        forall|k: Seq<char>|
            keys_of(normalize_cases(cases, ctx)).contains(k) ==> keys_of(cases).contains(k),
        keys_unique(cases) ==> keys_unique(normalize_cases(cases, ctx)),
    decreases cases.len(),
{
    let n = normalize_cases(cases, ctx);
    assert forall|k: Seq<char>| keys_of(n).contains(k) implies keys_of(cases).contains(k) by {
        let j = choose|j: int| 0 <= j < keys_of(n).len() && keys_of(n)[j] == k;
        lemma_normalized_case_origin(cases, ctx, j);
        let i = choose|i: int|
            0 <= i < cases.len() && n[j] == ((#[trigger] cases[i]).0, normalize_loc(cases[i].1, ctx));
        assert(keys_of(cases)[i] == k);
    }
    if cases.len() > 0 && keys_unique(cases) {
        let front = cases.drop_last();
        assert(keys_of(front) =~= keys_of(cases).drop_last());
        assert(keys_unique(front)) by {
            assert forall|a: int, b: int|
                0 <= a < keys_of(front).len() && 0 <= b < keys_of(front).len() && a != b implies keys_of(
                front,
            )[a] != keys_of(front)[b] by {
                assert(keys_of(front)[a] == keys_of(cases)[a]);
                assert(keys_of(front)[b] == keys_of(cases)[b]);
            }
        }
        lemma_normalize_cases_keys(front, ctx);
        let rest = normalize_cases(front, ctx);
        let last = normalize_loc(cases.last().1, ctx);
        if !loc_is_empty(last) {
            let k = cases.last().0;
            if keys_of(rest).contains(k) {
                assert(keys_of(front).contains(k));
                let a = choose|a: int| 0 <= a < keys_of(front).len() && keys_of(front)[a] == k;
                assert(keys_of(cases)[a] == k);
                assert(keys_of(cases)[cases.len() - 1] == k);
            }
            assert(keys_of(n) =~= keys_of(rest).push(k));
            crate::ordered_map::lemma_push_no_duplicates(keys_of(rest), k);
        }
    }
}

/// Each entry that normalizing leaves is the normalized form of an entry that was there.
pub proof fn lemma_normalized_entry_origin(strings: Seq<(Seq<char>, EntryModel)>, j: int)
    requires
        0 <= j < normalize_entries(strings).len(),
    ensures
        exists|i: int|
            0 <= i < strings.len() && normalize_entries(strings)[j] == (
                (#[trigger] strings[i]).0,
                normalize_entry(strings[i].1),
            ),
        entry_is_kept(normalize_entries(strings)[j].1),
    decreases strings.len(),
{
    if strings.len() > 0 {
        let rest = normalize_entries(strings.drop_last());
        if j < rest.len() {
            lemma_normalized_entry_origin(strings.drop_last(), j);
            let i = choose|i: int|
                0 <= i < strings.drop_last().len() && rest[j] == (
                    (#[trigger] strings.drop_last()[i]).0,
                    normalize_entry(strings.drop_last()[i].1),
                );
            assert(strings[i] == strings.drop_last()[i]);
        } else {
            assert(strings[strings.len() - 1] == strings.last());
        }
    }
}

/// Normalizing entries brings no new key and no key twice; an entry that is
/// kept is found under its key.
pub proof fn lemma_normalize_entries_keys(strings: Seq<(Seq<char>, EntryModel)>)
    ensures
        forall|k: Seq<char>|
            keys_of(normalize_entries(strings)).contains(k) ==> keys_of(strings).contains(k),
        keys_unique(strings) ==> keys_unique(normalize_entries(strings)),
        keys_unique(strings) ==> forall|i: int|
            0 <= i < strings.len() && entry_is_kept(normalize_entry((#[trigger] strings[i]).1))
                ==> lookup(normalize_entries(strings), strings[i].0) == Some(
                normalize_entry(strings[i].1),
            ),
    decreases strings.len(),
{
    let n = normalize_entries(strings);
    assert forall|k: Seq<char>| keys_of(n).contains(k) implies keys_of(strings).contains(k) by {
        let j = choose|j: int| 0 <= j < keys_of(n).len() && keys_of(n)[j] == k;
        lemma_normalized_entry_origin(strings, j);
        let i = choose|i: int|
            0 <= i < strings.len() && n[j] == ((#[trigger] strings[i]).0, normalize_entry(strings[i].1));
        assert(keys_of(strings)[i] == k);
    }
    if strings.len() > 0 && keys_unique(strings) {
        let front = strings.drop_last();
        assert(keys_of(front) =~= keys_of(strings).drop_last());
        assert(keys_unique(front)) by {
            assert forall|a: int, b: int|
                0 <= a < keys_of(front).len() && 0 <= b < keys_of(front).len() && a != b implies keys_of(
                front,
            )[a] != keys_of(front)[b] by {
                assert(keys_of(front)[a] == keys_of(strings)[a]);
                assert(keys_of(front)[b] == keys_of(strings)[b]);
            }
        }
        lemma_normalize_entries_keys(front);
        let rest = normalize_entries(front);
        let last = normalize_entry(strings.last().1);
        let k = strings.last().0;
        if keys_of(rest).contains(k) {
            assert(keys_of(front).contains(k));
            let a = choose|a: int| 0 <= a < keys_of(front).len() && keys_of(front)[a] == k;
            assert(keys_of(strings)[a] == k);
            assert(keys_of(strings)[strings.len() - 1] == k);
        }
        if entry_is_kept(last) {
            assert(keys_of(n) =~= keys_of(rest).push(k));
            crate::ordered_map::lemma_push_no_duplicates(keys_of(rest), k);
        }
        assert forall|i: int|
            0 <= i < strings.len() && entry_is_kept(
                normalize_entry((#[trigger] strings[i]).1),
            ) implies lookup(n, strings[i].0) == Some(normalize_entry(strings[i].1)) by {
            if i == strings.len() - 1 {
                assert(n[rest.len() as int] == (k, last));
                lemma_lookup_at(n, rest.len() as int);
            } else {
                assert(front[i] == strings[i]);
                assert(lookup(rest, strings[i].0) == Some(normalize_entry(strings[i].1)));
                let j = keys_of(rest).index_of(strings[i].0);
                assert(keys_of(rest).contains(strings[i].0));
                assert(keys_of(rest)[j] == strings[i].0);
                assert(n[j] == rest[j]);
                lemma_lookup_at(n, j);
            }
        }
    }
}

/// The placeholder of a new language survives normalizing unchanged.
pub proof fn lemma_placeholder_normalized(ctx: VariationContext)
    ensures
        normalize_loc(placeholder_loc(), ctx) == placeholder_loc(),
        !loc_is_empty(placeholder_loc()),
{
    reveal_strlit("needs-translation");
    assert(needs_translation_state()[0] == 'n');
    assert(!is_white_space('n'));
    assert(!all_white_space(needs_translation_state()));
    crate::normalize::lemma_normalize_no_variations(ctx);
    let p = placeholder_loc();
    assert(normalize_subs(p.substitutions) =~= Seq::empty());
}

/// What is reported of the placeholder of a new language: no value, and the
/// state `needs-translation`.
pub open spec fn placeholder_value() -> ValueModel {
    ValueModel {
        state: Some(needs_translation_state()),
        value: None,
        substitutions: Seq::empty(),
        variations: Seq::empty(),
    }
}

/// Language lifecycle, adding: once a language is added, every key that the
/// catalog had reports the placeholder for it.
pub proof fn lemma_added_language_reports_placeholder(
    c: CatalogModel,
    language: Seq<char>,
    key: Seq<char>,
)
    requires
        catalog_valid(c),
        add_language_error(c, language) is None,
        keys_of(c.strings).contains(key),
    ensures
        translation_of(
            normalize_catalog(with_strings(c, language_added(c.strings, trimmed(language)))),
            key,
            trimmed(language),
        ) == Some(placeholder_value()),
{
    let code = trimmed(language);
    let added = language_added(c.strings, code);
    let i = keys_of(c.strings).index_of(key);
    assert(keys_of(c.strings)[i] == key);
    assert(keys_of(added) =~= keys_of(c.strings));
    let e = c.strings[i].1;
    assert(!entry_has_language(e, code)) by {
        if entry_has_language(e, code) {
            assert(language_in_entries(c.strings, code));
        }
    }
    let e1 = added[i].1;
    assert(e1 == with_placeholder(e, code));
    let locs = e.localizations;
    let pushed = locs.push((code, placeholder_loc()));
    assert(e1.localizations == pushed);
    // The placeholder is the last localization of the normalized entry.
    lemma_placeholder_normalized(VariationContext::TopLevel);
    assert(pushed.drop_last() =~= locs);
    assert(pushed.last() == (code, placeholder_loc()));
    let rest = normalize_cases(locs, VariationContext::TopLevel);
    let normalized = normalize_cases(pushed, VariationContext::TopLevel);
    assert(normalized == rest.push((code, placeholder_loc())));
    lemma_normalize_cases_keys(locs, VariationContext::TopLevel);
    assert(keys_unique(locs));
    assert(!keys_of(rest).contains(code));
    assert(keys_of(normalized) =~= keys_of(rest).push(code));
    crate::ordered_map::lemma_push_no_duplicates(keys_of(rest), code);
    lemma_lookup_at(normalized, rest.len() as int);
    // The entry is kept and found under its key.
    assert(entry_is_kept(normalize_entry(e1)));
    lemma_normalize_entries_keys(added);
    assert(lookup(normalize_entries(added), added[i].0) == Some(normalize_entry(e1)));
    assert(value_of_loc(placeholder_loc()).substitutions =~= Seq::empty());
    assert(value_of_loc(placeholder_loc()).variations =~= Seq::empty());
}

/// Each entry that removing a language leaves is an entry that was there,
/// without its localization of the language.
pub proof fn lemma_language_removed_origin(
    strings: Seq<(Seq<char>, EntryModel)>,
    language: Seq<char>,
    j: int,
)
    requires
        0 <= j < language_removed(strings, language).len(),
    ensures
        exists|i: int|
            0 <= i < strings.len() && language_removed(strings, language)[j] == (
                (#[trigger] strings[i]).0,
                with_localizations(strings[i].1, take_out(strings[i].1.localizations, language)),
            ),
    decreases strings.len(),
{
    if strings.len() > 0 {
        let rest = language_removed(strings.drop_last(), language);
        if j < rest.len() {
            lemma_language_removed_origin(strings.drop_last(), language, j);
            let i = choose|i: int|
                0 <= i < strings.drop_last().len() && rest[j] == (
                    (#[trigger] strings.drop_last()[i]).0,
                    with_localizations(
                        strings.drop_last()[i].1,
                        take_out(strings.drop_last()[i].1.localizations, language),
                    ),
                );
            assert(strings[i] == strings.drop_last()[i]);
        } else {
            assert(strings[strings.len() - 1] == strings.last());
        }
    }
}

/// An ordered mapping without duplicate keys lacks a key once its entry is taken out.
pub proof fn lemma_take_out_lacks<A>(s: Seq<(Seq<char>, A)>, key: Seq<char>)
    requires
        keys_unique(s),
    ensures
        !keys_of(take_out(s, key)).contains(key),
{
    let t = take_out(s, key);
    if keys_of(s).contains(key) {
        let i = keys_of(s).index_of(key);
        assert(keys_of(s)[i] == key);
        if keys_of(t).contains(key) {
            let j = choose|j: int| 0 <= j < keys_of(t).len() && keys_of(t)[j] == key;
            let j2 = if j < i { j } else { j + 1 };
            assert(t[j] == s[j2]);
            assert(keys_of(s)[j2] == key);
        }
    }
}

/// Language lifecycle, removing: once a language is removed, no key reports
/// anything for it.
pub proof fn lemma_removed_language_reports_nothing(
    c: CatalogModel,
    language: Seq<char>,
    key: Seq<char>,
)
    requires
        catalog_valid(c),
    ensures
        translation_of(
            normalize_catalog(with_strings(c, language_removed(c.strings, trimmed(language)))),
            key,
            trimmed(language),
        ) is None,
{
    let code = trimmed(language);
    let removed = language_removed(c.strings, code);
    let n = normalize_entries(removed);
    if keys_of(n).contains(key) {
        let j = keys_of(n).index_of(key);
        assert(keys_of(n)[j] == key);
        lemma_normalized_entry_origin(removed, j);
        let m = choose|m: int|
            0 <= m < removed.len() && n[j] == ((#[trigger] removed[m]).0, normalize_entry(removed[m].1));
        lemma_language_removed_origin(c.strings, code, m);
        let i = choose|i: int|
            0 <= i < c.strings.len() && removed[m] == (
                (#[trigger] c.strings[i]).0,
                with_localizations(c.strings[i].1, take_out(c.strings[i].1.localizations, code)),
            );
        let left = take_out(c.strings[i].1.localizations, code);
        lemma_take_out_lacks(c.strings[i].1.localizations, code);
        lemma_normalize_cases_keys(left, VariationContext::TopLevel);
        assert(n[j].1.localizations == normalize_cases(left, VariationContext::TopLevel));
    }
}

/// Language lifecycle, the source language: it cannot be added, because the
/// catalog has it, and it cannot be removed.
pub proof fn lemma_source_language_protected(c: CatalogModel, language: Seq<char>)
    requires
        trimmed(language) == c.source_language,
        trimmed(language).len() > 0,
    ensures
        add_language_error(c, language) == Some(ErrorModel::LanguageExists(c.source_language)),
        remove_language_error(c, language) == Some(
            ErrorModel::CannotRemoveSourceLanguage(c.source_language),
        ),
{
}

/// Every substitution is in normal form and holds something.
pub open spec fn subs_settled(subs: Seq<(Seq<char>, SubModel)>) -> bool {
    forall|i: int|
        0 <= i < subs.len() ==> normalize_sub((#[trigger] subs[i]).1) == subs[i].1 && !sub_is_empty(
            subs[i].1,
        )
}

/// Substitutions that are each in normal form and hold something are in
/// normal form together.
pub proof fn lemma_settled_subs_fixed(subs: Seq<(Seq<char>, SubModel)>)
    requires
        subs_settled(subs),
    ensures
        normalize_subs(subs) == subs,
    decreases subs.len(),
{
    if subs.len() == 0 {
        assert(subs =~= Seq::empty());
    } else {
        let front = subs.drop_last();
        assert forall|i: int| 0 <= i < front.len() implies normalize_sub((#[trigger] front[i]).1)
            == front[i].1 && !sub_is_empty(front[i].1) by {
            assert(front[i] == subs[i]);
        }
        lemma_settled_subs_fixed(front);
        assert(subs[subs.len() - 1] == subs.last());
        assert(front.push(subs.last()) =~= subs);
    }
}

/// Normalizing substitutions adds none.
pub proof fn lemma_normalize_subs_len(subs: Seq<(Seq<char>, SubModel)>)
    ensures
        normalize_subs(subs).len() <= subs.len(),
    decreases subs.len(),
{
    if subs.len() > 0 {
        lemma_normalize_subs_len(subs.drop_last());
    }
}

/// Substitutions in normal form are each in normal form and hold something.
pub proof fn lemma_fixed_subs_settled(subs: Seq<(Seq<char>, SubModel)>)
    requires
        normalize_subs(subs) == subs,
    ensures
        subs_settled(subs),
    decreases subs.len(),
{
    if subs.len() > 0 {
        let front = subs.drop_last();
        let rest = normalize_subs(front);
        let last = normalize_sub(subs.last().1);
        lemma_normalize_subs_len(front);
        assert(!sub_is_empty(last));
        let pushed = rest.push((subs.last().0, last));
        assert(pushed.drop_last() =~= rest);
        assert(pushed.last() == (subs.last().0, last));
        assert(rest == front);
        lemma_fixed_subs_settled(front);
        assert forall|i: int| 0 <= i < subs.len() implies normalize_sub((#[trigger] subs[i]).1)
            == subs[i].1 && !sub_is_empty(subs[i].1) by {
            if i < subs.len() - 1 {
                assert(front[i] == subs[i]);
            } else {
                assert(subs[i] == subs.last());
            }
        }
    }
}

/// Taking a name out leaves settled substitutions settled.
pub proof fn lemma_settled_take_out(subs: Seq<(Seq<char>, SubModel)>, key: Seq<char>)
    requires
        subs_settled(subs),
    ensures
        subs_settled(take_out(subs, key)),
{
    let t = take_out(subs, key);
    if keys_of(subs).contains(key) {
        let i = keys_of(subs).index_of(key);
        assert forall|j: int| 0 <= j < t.len() implies normalize_sub((#[trigger] t[j]).1) == t[j].1
            && !sub_is_empty(t[j].1) by {
            let j2 = if j < i { j } else { j + 1 };
            assert(t[j] == subs[j2]);
        }
    }
}

/// Storing a substitution that is in normal form and holds something leaves
/// settled substitutions settled.
pub proof fn lemma_settled_put(subs: Seq<(Seq<char>, SubModel)>, key: Seq<char>, a: SubModel)
    requires
        subs_settled(subs),
        normalize_sub(a) == a,
        !sub_is_empty(a),
    ensures
        subs_settled(put(subs, key, a)),
{
    let t = put(subs, key, a);
    assert forall|j: int| 0 <= j < t.len() implies normalize_sub((#[trigger] t[j]).1) == t[j].1
        && !sub_is_empty(t[j].1) by {
        if keys_of(subs).contains(key) {
            let i = keys_of(subs).index_of(key);
            if j != i {
                assert(t[j] == subs[j]);
            }
        } else {
            if j < subs.len() {
                assert(t[j] == subs[j]);
            }
        }
    }
}

/// An updated string unit is in normal form.
pub proof fn lemma_merged_unit_normalized(
    unit: Option<UnitModel>,
    state: FieldUpdate<Seq<char>>,
    value: FieldUpdate<Seq<char>>,
)
    ensures
        normalize_unit(merged_unit(unit, state, value)) == merged_unit(unit, state, value),
{
    let base = match unit {
        Some(u) => u,
        None => UnitModel { state: None, value: None },
    };
    lemma_sanitize_idempotent(
        UnitModel {
            state: crate::update::merge_field(base.state, state),
            value: crate::update::merge_field(base.value, value),
        },
    );
}

/// A substitution in normal form is in normal form after a partial update.
pub proof fn lemma_sub_update_normalized(target: SubModel, update: SubUpdateModel)
    requires
        normalize_sub(target) == target,
    ensures
        normalize_sub(apply_sub_update_spec(target, update)) == apply_sub_update_spec(
            target,
            update,
        ),
{
    lemma_merged_unit_normalized(target.unit, update.state, update.value);
    if let Some(changes) = update.variations {
        lemma_variations_idempotent(
            crate::update::with_selectors(
                crate::update::selectors_built(target.variations, changes),
                crate::update::selectors_left(target.variations, changes),
            ),
            VariationContext::TopLevel,
        );
    }
}

/// The substitutions that an update does not name stay settled.
pub proof fn lemma_subs_left_settled(
    existing: Seq<(Seq<char>, SubModel)>,
    changes: Seq<(Seq<char>, Option<SubUpdateModel>)>,
)
    requires
        subs_settled(existing),
    ensures
        subs_settled(subs_left(existing, changes)),
    decreases changes.len(),
{
    if changes.len() > 0 {
        lemma_subs_left_settled(existing, changes.drop_last());
        lemma_settled_take_out(subs_left(existing, changes.drop_last()), changes.last().0);
    }
}

/// The substitutions that an update creates or merges are settled.
pub proof fn lemma_subs_built_settled(
    existing: Seq<(Seq<char>, SubModel)>,
    changes: Seq<(Seq<char>, Option<SubUpdateModel>)>,
)
    requires
        subs_settled(existing),
    ensures
        subs_settled(subs_built(existing, changes)),
    decreases changes.len(),
{
    if changes.len() > 0 {
        lemma_subs_built_settled(existing, changes.drop_last());
        if let Some(u) = changes.last().1 {
            let left = subs_left(existing, changes.drop_last());
            lemma_subs_left_settled(existing, changes.drop_last());
            let base = match lookup(left, changes.last().0) {
                Some(s) => s,
                None => empty_sub(),
            };
            if keys_of(left).contains(changes.last().0) {
                let i = keys_of(left).index_of(changes.last().0);
                assert(left[i].1 == base);
            } else {
                crate::normalize::lemma_normalize_no_variations(VariationContext::TopLevel);
            }
            lemma_sub_update_normalized(base, u);
            let updated = apply_sub_update_spec(base, u);
            if !sub_is_empty(updated) {
                lemma_settled_put(subs_built(existing, changes.drop_last()), changes.last().0, updated);
            }
        }
    }
}

/// Settled substitutions followed by settled substitutions are settled.
pub proof fn lemma_with_subs_settled(
    built: Seq<(Seq<char>, SubModel)>,
    left: Seq<(Seq<char>, SubModel)>,
)
    requires
        subs_settled(built),
        subs_settled(left),
    ensures
        subs_settled(with_subs(built, left)),
    decreases left.len(),
{
    if left.len() > 0 {
        let front = left.drop_last();
        assert forall|i: int| 0 <= i < front.len() implies normalize_sub((#[trigger] front[i]).1)
            == front[i].1 && !sub_is_empty(front[i].1) by {
            assert(front[i] == left[i]);
        }
        lemma_with_subs_settled(built, front);
        assert(left[left.len() - 1] == left.last());
        lemma_settled_put(with_subs(built, front), left.last().0, left.last().1);
    }
}

/// What an update returns is what is stored: a localization in normal form
/// is in normal form after a partial update, so that normalizing the catalog
/// afterwards leaves it as the update reported it.
pub proof fn lemma_update_result_is_normalized(target: LocModel, update: UpdateModel)
    requires
        normalize_loc(target, VariationContext::TopLevel) == target,
    ensures
        normalize_loc(apply_update_spec(target, update), VariationContext::TopLevel)
            == apply_update_spec(target, update),
{
    lemma_merged_unit_normalized(target.unit, update.state, update.value);
    if let Some(changes) = update.variations {
        lemma_variations_idempotent(
            crate::update::with_selectors(
                crate::update::selectors_built(target.variations, changes),
                crate::update::selectors_left(target.variations, changes),
            ),
            VariationContext::TopLevel,
        );
    }
    if let Some(changes) = update.substitutions {
        lemma_fixed_subs_settled(target.substitutions);
        lemma_subs_built_settled(target.substitutions, changes);
        lemma_subs_left_settled(target.substitutions, changes);
        lemma_with_subs_settled(
            subs_built(target.substitutions, changes),
            subs_left(target.substitutions, changes),
        );
        lemma_settled_subs_fixed(merged_subs(target.substitutions, changes));
    }
}

/// A localization that holds nothing is in normal form: a pair that the
/// catalog does not hold starts from one.
pub proof fn lemma_empty_loc_normalized()
    ensures
        normalize_loc(empty_loc(), VariationContext::TopLevel) == empty_loc(),
{
    crate::normalize::lemma_normalize_no_variations(VariationContext::TopLevel);
    assert(normalize_subs(empty_loc().substitutions) =~= Seq::empty());
}

/// What is found under a case once the cases are normalized: the case in
/// normal form, or nothing where that is empty.
pub proof fn lemma_normalize_cases_lookup(cases: CasesModel, ctx: VariationContext, i: int)
    requires
        keys_unique(cases),
        0 <= i < cases.len(),
    ensures
        lookup(normalize_cases(cases, ctx), cases[i].0) == (if loc_is_empty(
            normalize_loc(cases[i].1, ctx),
        ) {
            None
        } else {
            Some(normalize_loc(cases[i].1, ctx))
        }),
    decreases cases.len(),
{
    let n = normalize_cases(cases, ctx);
    let key = cases[i].0;
    lemma_normalize_cases_keys(cases, ctx);
    assert(keys_of(cases)[i] == key);
    if loc_is_empty(normalize_loc(cases[i].1, ctx)) {
        if keys_of(n).contains(key) {
            let j = choose|j: int| 0 <= j < keys_of(n).len() && keys_of(n)[j] == key;
            lemma_normalized_case_origin(cases, ctx, j);
            let m = choose|m: int|
                0 <= m < cases.len() && n[j] == ((#[trigger] cases[m]).0, normalize_loc(cases[m].1, ctx));
            assert(keys_of(cases)[m] == key);
        }
    } else {
        let front = cases.drop_last();
        let rest = normalize_cases(front, ctx);
        assert(keys_of(front) =~= keys_of(cases).drop_last());
        assert(keys_unique(front)) by {
            assert forall|a: int, b: int|
                0 <= a < keys_of(front).len() && 0 <= b < keys_of(front).len() && a != b implies keys_of(
                front,
            )[a] != keys_of(front)[b] by {
                assert(keys_of(front)[a] == keys_of(cases)[a]);
                assert(keys_of(front)[b] == keys_of(cases)[b]);
            }
        }
        if i == cases.len() - 1 {
            assert(cases[i] == cases.last());
            assert(n[rest.len() as int] == (key, normalize_loc(cases[i].1, ctx)));
            lemma_lookup_at(n, rest.len() as int);
        } else {
            assert(front[i] == cases[i]);
            lemma_normalize_cases_lookup(front, ctx, i);
            let j = keys_of(rest).index_of(key);
            assert(keys_of(rest).contains(key));
            assert(keys_of(rest)[j] == key);
            assert(n[j] == rest[j]);
            lemma_lookup_at(n, j);
        }
    }
}

/// Under the key of an entry that is not kept nothing is found once the
/// entries are normalized.
pub proof fn lemma_dropped_entry_is_absent(strings: Seq<(Seq<char>, EntryModel)>, i: int)
    requires
        keys_unique(strings),
        0 <= i < strings.len(),
        !entry_is_kept(normalize_entry(strings[i].1)),
    ensures
        lookup(normalize_entries(strings), strings[i].0) is None,
{
    let n = normalize_entries(strings);
    let key = strings[i].0;
    assert(keys_of(strings)[i] == key);
    if keys_of(n).contains(key) {
        let j = choose|j: int| 0 <= j < keys_of(n).len() && keys_of(n)[j] == key;
        lemma_normalized_entry_origin(strings, j);
        let m = choose|m: int|
            0 <= m < strings.len() && n[j] == ((#[trigger] strings[m]).0, normalize_entry(strings[m].1));
        assert(keys_of(strings)[m] == key);
    }
}

/// The localization from which an update of a valid catalog starts is in
/// normal form.
pub proof fn lemma_update_target_normalized(c: CatalogModel, key: Seq<char>, language: Seq<char>)
    requires
        is_valid(c),
    ensures
        normalize_loc(
            loc_or_default(entry_or_default(c.strings, key).localizations, language),
            VariationContext::TopLevel,
        ) == loc_or_default(entry_or_default(c.strings, key).localizations, language),
{
    let top = VariationContext::TopLevel;
    lemma_empty_loc_normalized();
    let e = entry_or_default(c.strings, key);
    if keys_of(c.strings).contains(key) {
        let j = keys_of(c.strings).index_of(key);
        lemma_normalized_entry_origin(c.strings, j);
        let m = choose|m: int|
            0 <= m < c.strings.len() && c.strings[j] == (
                (#[trigger] c.strings[m]).0,
                normalize_entry(c.strings[m].1),
            );
        let locs = c.strings[m].1.localizations;
        assert(e.localizations == normalize_cases(locs, top));
        if keys_of(e.localizations).contains(language) {
            let k = keys_of(e.localizations).index_of(language);
            lemma_normalized_case_origin(locs, top, k);
            let x = choose|x: int|
                0 <= x < locs.len() && e.localizations[k] == (
                    (#[trigger] locs[x]).0,
                    normalize_loc(locs[x].1, top),
                );
            lemma_loc_idempotent(locs[x].1, top);
        }
    } else {
        assert(keys_of(default_entry().localizations) =~= Seq::empty());
    }
}

/// What an update returns is what is stored: after an update of a valid
/// catalog, the pair reports the localization that the update returned, or
/// nothing where the update left the localization empty.
pub proof fn lemma_upsert_returns_what_is_stored(
    c: CatalogModel,
    key: Seq<char>,
    language: Seq<char>,
    update: UpdateModel,
)
    requires
        is_valid(c),
    ensures
        translation_of(
            normalize_catalog(
                with_strings(c, upserted_strings(c.strings, key, language, update)),
            ),
            key,
            language,
        ) == (if loc_is_empty(upserted_loc(c.strings, key, language, update)) {
            None
        } else {
            Some(value_of_loc(upserted_loc(c.strings, key, language, update)))
        }),
{
    let top = VariationContext::TopLevel;
    let e = entry_or_default(c.strings, key);
    let target = loc_or_default(e.localizations, language);
    let l = upserted_loc(c.strings, key, language, update);
    lemma_update_target_normalized(c, key, language);
    lemma_update_result_is_normalized(target, update);
    // The localizations of the entry after the update.
    assert(keys_unique(e.localizations)) by {
        if keys_of(c.strings).contains(key) {
            let j = keys_of(c.strings).index_of(key);
            assert(c.strings[j].1 == e);
        } else {
            assert(keys_of(default_entry().localizations) =~= Seq::empty());
        }
    }
    let locs = put(e.localizations, language, l);
    crate::round_trip::lemma_put(e.localizations, language, l, language);
    let at = keys_of(locs).index_of(language);
    assert(keys_of(locs).contains(language)) by {
        if keys_of(e.localizations).contains(language) {
            let k = keys_of(e.localizations).index_of(language);
            assert(keys_of(locs) =~= keys_of(e.localizations));
        } else {
            assert(keys_of(locs) =~= keys_of(e.localizations).push(language));
            assert(keys_of(locs)[e.localizations.len() as int] == language);
        }
    }
    assert(locs[at] == (language, l));
    lemma_normalize_cases_lookup(locs, top, at);
    // The entries after the update.
    let entry = with_localizations(e, locs);
    let strings = put(c.strings, key, entry);
    crate::round_trip::lemma_put(c.strings, key, entry, key);
    assert(keys_of(strings).contains(key)) by {
        if keys_of(c.strings).contains(key) {
            assert(keys_of(strings) =~= keys_of(c.strings));
        } else {
            assert(keys_of(strings) =~= keys_of(c.strings).push(key));
            assert(keys_of(strings)[c.strings.len() as int] == key);
        }
    }
    let place = keys_of(strings).index_of(key);
    assert(strings[place] == (key, entry));
    let stored = normalize_entry(entry);
    if entry_is_kept(stored) {
        lemma_normalize_entries_keys(strings);
        assert(lookup(normalize_entries(strings), strings[place].0) == Some(stored));
    } else {
        lemma_dropped_entry_is_absent(strings, place);
        if !loc_is_empty(l) {
            assert(keys_of(stored.localizations).contains(language));
        }
    }
}

} // verus!
