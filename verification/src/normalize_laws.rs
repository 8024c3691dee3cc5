use crate::model::{CasesModel, CatalogModel, EntryModel, LocModel, SubModel, UnitModel, VariationsModel};
use crate::normalize::{
    VariationContext, default_source_language_text, default_version_text, device_excluded,
    device_selector, drop_device, drop_empty_selectors, entry_is_kept, has_case, has_key,
    loc_is_empty, other_key,
    lemma_without_key_absent, nested_context, normalize_cases, normalize_catalog,
    normalize_entries, normalize_entry, normalize_loc, normalize_selectors, normalize_sub,
    normalize_subs, normalize_unit, normalize_variations, plural_selector, sanitize_unit,
    sub_is_empty, translated_state,
};
use crate::text::{all_white_space, is_white_space};
use vstd::prelude::*;

verus! {

/// The state `translated` is not blank.
pub proof fn lemma_translated_not_blank()
    ensures
        !all_white_space(translated_state()),
{
    reveal_strlit("translated");
    assert(translated_state()[0] == 't');
    assert(!is_white_space('t'));
}

/// The default version and the default source language are not blank.
pub proof fn lemma_defaults_not_blank()
    ensures
        !all_white_space(default_version_text()),
        !all_white_space(default_source_language_text()),
{
    reveal_strlit("1.0");
    reveal_strlit("en");
    assert(default_version_text()[0] == '1');
    assert(!is_white_space('1'));
    assert(default_source_language_text()[0] == 'e');
    assert(!is_white_space('e'));
}

/// Sanitizing a sanitized string unit changes nothing.
pub proof fn lemma_sanitize_idempotent(u: UnitModel)
    ensures
        sanitize_unit(sanitize_unit(u)) == sanitize_unit(u),
{
    lemma_translated_not_blank();
}

/// Normalizing a normalized string unit changes nothing.
pub proof fn lemma_unit_idempotent(u: Option<UnitModel>)
    ensures
        normalize_unit(normalize_unit(u)) == normalize_unit(u),
{
    if let Some(x) = u {
        lemma_sanitize_idempotent(x);
    }
}

/// A filter keeps a sequence whose elements all pass it.
pub proof fn lemma_filter_all<A>(s: Seq<A>, pred: spec_fn(A) -> bool)
    requires
        forall|i: int| 0 <= i < s.len() ==> pred(#[trigger] s[i]),
    ensures
        s.filter(pred) == s,
    decreases s.len(),
{
    reveal(Seq::filter);
    if s.len() > 0 {
        assert forall|i: int| 0 <= i < s.drop_last().len() implies pred(
            #[trigger] s.drop_last()[i],
        ) by {
            assert(s.drop_last()[i] == s[i]);
        }
        lemma_filter_all(s.drop_last(), pred);
        assert(pred(s[s.len() - 1]));
        assert(s =~= s.drop_last().push(s.last()));
    }
}

/// What a filter keeps stood in the sequence and passes the filter.
pub proof fn lemma_filter_member<A>(s: Seq<A>, pred: spec_fn(A) -> bool, i: int)
    requires
        0 <= i < s.filter(pred).len(),
    ensures
        pred(s.filter(pred)[i]),
        s.contains(s.filter(pred)[i]),
{
    let f = s.filter(pred);
    s.filter_lemma(pred);
    assert(f.contains(f[i]));
    s.lemma_filter_contains_rev(pred, f[i]);
}

/// Each selector of the result of [`normalize_selectors`] stands at the place
/// of the selector it came from, with that selector's cases normalized.
pub proof fn lemma_selectors_index(vars: VariationsModel, ctx: VariationContext)
    ensures
        normalize_selectors(vars, ctx).len() == vars.len(),
        forall|i: int|
            0 <= i < vars.len() ==> #[trigger] normalize_selectors(vars, ctx)[i] == (
                vars[i].0,
                normalize_cases(vars[i].1, nested_context(ctx, vars[i].0)),
            ),
    decreases vars.len(),
{
    if vars.len() > 0 {
        lemma_selectors_index(vars.drop_last(), ctx);
        assert forall|i: int| 0 <= i < vars.len() implies #[trigger] normalize_selectors(
            vars,
            ctx,
        )[i] == (vars[i].0, normalize_cases(vars[i].1, nested_context(ctx, vars[i].0))) by {
            if i < vars.len() - 1 {
                assert(vars.drop_last()[i] == vars[i]);
            }
        }
    }
}

/// Normalizing normalized cases changes nothing.
pub proof fn lemma_cases_idempotent(cases: CasesModel, ctx: VariationContext)
    ensures
        normalize_cases(normalize_cases(cases, ctx), ctx) == normalize_cases(cases, ctx),
    decreases cases, 0nat,
{
    if cases.len() > 0 {
        lemma_cases_idempotent(cases.drop_last(), ctx);
        lemma_loc_idempotent(cases.last().1, ctx);
        let rest = normalize_cases(cases.drop_last(), ctx);
        let last = normalize_loc(cases.last().1, ctx);
        if !loc_is_empty(last) {
            let pushed = rest.push((cases.last().0, last));
            assert(pushed.drop_last() =~= rest);
            assert(pushed.last() == (cases.last().0, last));
        }
    }
}

/// Normalizing normalized substitutions changes nothing.
pub proof fn lemma_subs_idempotent(subs: Seq<(Seq<char>, SubModel)>)
    ensures
        normalize_subs(normalize_subs(subs)) == normalize_subs(subs),
    decreases subs, 0nat,
{
    if subs.len() > 0 {
        lemma_subs_idempotent(subs.drop_last());
        lemma_sub_idempotent(subs.last().1);
        let rest = normalize_subs(subs.drop_last());
        let last = normalize_sub(subs.last().1);
        if !sub_is_empty(last) {
            let pushed = rest.push((subs.last().0, last));
            assert(pushed.drop_last() =~= rest);
            assert(pushed.last() == (subs.last().0, last));
        }
    }
}

/// Normalizing a normalized substitution changes nothing.
pub proof fn lemma_sub_idempotent(s: SubModel)
    ensures
        normalize_sub(normalize_sub(s)) == normalize_sub(s),
    decreases s, 0nat,
{
    lemma_unit_idempotent(s.unit);
    lemma_variations_idempotent(s.variations, VariationContext::TopLevel);
}

/// Normalizing a normalized localization in the same context changes nothing.
pub proof fn lemma_loc_idempotent(l: LocModel, ctx: VariationContext)
    ensures
        normalize_loc(normalize_loc(l, ctx), ctx) == normalize_loc(l, ctx),
    decreases l, 0nat,
{
    lemma_unit_idempotent(l.unit);
    lemma_variations_idempotent(l.variations, ctx);
    lemma_subs_idempotent(l.substitutions);
}

/// Normalizing normalized variation selectors in the same context changes nothing.
pub proof fn lemma_variations_idempotent(vars: VariationsModel, ctx: VariationContext)
    ensures
        normalize_variations(normalize_variations(vars, ctx), ctx) == normalize_variations(
            vars,
            ctx,
        ),
    decreases vars, 1nat,
{
    let no_device = other_key::<CasesModel>(device_selector());
    let has_case = has_case();
    let s = normalize_selectors(vars, ctx);
    let d = drop_device(s, ctx);
    let w = drop_empty_selectors(d);
    lemma_selectors_index(vars, ctx);
    lemma_selectors_index(w, ctx);
    // Every selector that is left came out of the first step.
    assert forall|i: int| 0 <= i < w.len() implies s.contains(#[trigger] w[i]) && has_case(w[i])
        && d.contains(w[i]) by {
        lemma_filter_member(d, has_case, i);
        if device_excluded(s, ctx) {
            let j = choose|j: int| 0 <= j < d.len() && d[j] == w[i];
            lemma_filter_member(s, no_device, j);
        }
    }
    assert forall|i: int| 0 <= i < w.len() implies #[trigger] normalize_selectors(w, ctx)[i]
        == w[i] by {
        let j = choose|j: int| 0 <= j < s.len() && s[j] == w[i];
        lemma_cases_idempotent(vars[j].1, nested_context(ctx, vars[j].0));
    }
    assert(normalize_selectors(w, ctx) =~= w);
    // The exclusion rule finds nothing more to drop.
    if device_excluded(s, ctx) {
        assert forall|i: int| 0 <= i < w.len() implies (#[trigger] w[i]).0 != device_selector() by {
            let j = choose|j: int| 0 <= j < d.len() && d[j] == w[i];
            lemma_filter_member(s, no_device, j);
        }
        lemma_without_key_absent(w, device_selector());
    } else {
        if has_key(w, plural_selector()) {
            let i = choose|i: int| 0 <= i < w.len() && (#[trigger] w[i]).0 == plural_selector();
            let j = choose|j: int| 0 <= j < s.len() && s[j] == w[i];
            assert(s[j].0 == plural_selector());
        }
    }
    assert(drop_device(w, ctx) == w);
    lemma_filter_all(w, has_case);
}

/// Normalizing a normalized entry changes nothing, and does not change
/// whether the catalog keeps it.
pub proof fn lemma_entry_idempotent(e: EntryModel)
    ensures
        normalize_entry(normalize_entry(e)) == normalize_entry(e),
{
    lemma_cases_idempotent(e.localizations, VariationContext::TopLevel);
}

/// Normalizing normalized entries changes nothing.
pub proof fn lemma_entries_idempotent(entries: Seq<(Seq<char>, EntryModel)>)
    ensures
        normalize_entries(normalize_entries(entries)) == normalize_entries(entries),
    decreases entries.len(),
{
    if entries.len() > 0 {
        lemma_entries_idempotent(entries.drop_last());
        lemma_entry_idempotent(entries.last().1);
        let rest = normalize_entries(entries.drop_last());
        let last = normalize_entry(entries.last().1);
        if entry_is_kept(last) {
            let pushed = rest.push((entries.last().0, last));
            assert(pushed.drop_last() =~= rest);
            assert(pushed.last() == (entries.last().0, last));
        }
    }
}

/// Normalization is idempotent: normalizing a normalized catalog yields the
/// same catalog.
pub proof fn lemma_normalize_idempotent(c: CatalogModel)
    ensures
        normalize_catalog(normalize_catalog(c)) == normalize_catalog(c),
{
    lemma_defaults_not_blank();
    lemma_entries_idempotent(c.strings);
}

} // verus!
