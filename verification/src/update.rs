use crate::model::{
    Cases, CasesModel, LocModel, SubModel, UnitModel, Variations, VariationsModel, XcLocalization,
    XcStringUnit, XcSubstitution, cases_view, empty_loc, empty_sub, subs_view, text_view, unit_view, variations_view,
};
use crate::normalize::{
    VariationContext, loc_is_empty, localization_is_empty, normalize_variations, sanitize_string_unit,
    sanitize_unit, string_unit_has_content, sub_is_empty, substitution_is_empty,
    translated_state, unit_has_content, validate_and_normalize_variations,
};
use crate::ordered_map::OrderedMap;
use vstd::prelude::*;
use vstd::string::StringExecFns;

verus! {

/// What a partial update asks of one field: leave it, clear it, or set it.
#[derive(Debug, Clone)]
pub enum FieldUpdate<T> {
    Unchanged,
    Clear,
    Replace(T),
}

/// The cases that an update addresses below one selector.
pub type CaseUpdates = OrderedMap<TranslationUpdate>;

/// The selectors that an update addresses, each with its cases.
pub type VariationUpdates = OrderedMap<CaseUpdates>;

/// A partial update of one localization. A member that is `None` leaves the
/// variations, or the substitutions, as they are.
#[derive(Debug)]
pub struct TranslationUpdate {
    pub state: FieldUpdate<String>,
    pub value: FieldUpdate<String>,
    pub substitutions: Option<OrderedMap<Option<SubstitutionUpdate>>>,
    pub variations: Option<VariationUpdates>,
}

/// A partial update of one substitution.
#[derive(Debug)]
pub struct SubstitutionUpdate {
    pub state: FieldUpdate<String>,
    pub value: FieldUpdate<String>,
    pub arg_num: FieldUpdate<i64>,
    pub format_specifier: FieldUpdate<String>,
    pub variations: Option<VariationUpdates>,
}

/// Updates of cases in order: name and update.
pub type CaseUpdatesModel = Seq<(Seq<char>, UpdateModel)>;

/// Updates of selectors in order: name and case updates.
pub type VariationUpdatesModel = Seq<(Seq<char>, CaseUpdatesModel)>;

/// The mathematical value of a [`TranslationUpdate`].
pub struct UpdateModel {
    pub state: FieldUpdate<Seq<char>>,
    pub value: FieldUpdate<Seq<char>>,
    pub substitutions: Option<Seq<(Seq<char>, Option<SubUpdateModel>)>>,
    pub variations: Option<VariationUpdatesModel>,
}

/// The mathematical value of a [`SubstitutionUpdate`].
pub struct SubUpdateModel {
    pub state: FieldUpdate<Seq<char>>,
    pub value: FieldUpdate<Seq<char>>,
    pub arg_num: FieldUpdate<int>,
    pub format_specifier: FieldUpdate<Seq<char>>,
    pub variations: Option<VariationUpdatesModel>,
}

/// The model of an update of a text field.
pub open spec fn text_change(c: FieldUpdate<String>) -> FieldUpdate<Seq<char>> {
    match c {
        FieldUpdate::Unchanged => FieldUpdate::Unchanged,
        FieldUpdate::Clear => FieldUpdate::Clear,
        FieldUpdate::Replace(s) => FieldUpdate::Replace(s@),
    }
}

/// The model of an update of an integer field.
pub open spec fn number_change(c: FieldUpdate<i64>) -> FieldUpdate<int> {
    match c {
        FieldUpdate::Unchanged => FieldUpdate::Unchanged,
        FieldUpdate::Clear => FieldUpdate::Clear,
        FieldUpdate::Replace(n) => FieldUpdate::Replace(n as int),
    }
}

/// An update that changes nothing.
pub open spec fn no_update() -> UpdateModel {
    UpdateModel {
        state: FieldUpdate::Unchanged,
        value: FieldUpdate::Unchanged,
        substitutions: None,
        variations: None,
    }
}

/// The model of an update of a localization.
pub open spec fn update_view(u: TranslationUpdate) -> UpdateModel
    decreases u,
{
    UpdateModel {
        state: text_change(u.state),
        value: text_change(u.value),
        substitutions: match u.substitutions {
            Some(m) => Some(sub_updates_view(m)),
            None => None,
        },
        variations: match u.variations {
            Some(m) => Some(variation_updates_view(m)),
            None => None,
        },
    }
}

/// The model of an update of a substitution.
pub open spec fn sub_update_view(u: SubstitutionUpdate) -> SubUpdateModel
    decreases u,
{
    SubUpdateModel {
        state: text_change(u.state),
        value: text_change(u.value),
        arg_num: number_change(u.arg_num),
        format_specifier: text_change(u.format_specifier),
        variations: match u.variations {
            Some(m) => Some(variation_updates_view(m)),
            None => None,
        },
    }
}

/// The model of a map of case updates: its entries in order.
pub open spec fn case_updates_view(m: CaseUpdates) -> CaseUpdatesModel
    decreases m,
{
    Seq::new(
        m.values().len(),
        |i: int|
            if 0 <= i < m.values().len() {
                proof {
                    m.lemma_decreases();
                }
                (m.keys()[i], update_view(m.values()[i]))
            } else {
                (Seq::empty(), no_update())
            },
    )
}

/// The model of a map of selector updates: its entries in order.
pub open spec fn variation_updates_view(m: VariationUpdates) -> VariationUpdatesModel
    decreases m,
{
    Seq::new(
        m.values().len(),
        |i: int|
            if 0 <= i < m.values().len() {
                proof {
                    m.lemma_decreases();
                }
                (m.keys()[i], case_updates_view(m.values()[i]))
            } else {
                (Seq::empty(), Seq::empty())
            },
    )
}

/// The model of a map of substitution updates: its entries in order. An entry
/// without an update asks for the substitution to be deleted.
pub open spec fn sub_updates_view(m: OrderedMap<Option<SubstitutionUpdate>>) -> Seq<
    (Seq<char>, Option<SubUpdateModel>),
>
    decreases m,
{
    Seq::new(
        m.values().len(),
        |i: int|
            if 0 <= i < m.values().len() {
                proof {
                    m.lemma_decreases();
                }
                (
                    m.keys()[i],
                    match m.values()[i] {
                        Some(u) => Some(sub_update_view(u)),
                        None => None,
                    },
                )
            } else {
                (Seq::empty(), None)
            },
    )
}

impl View for TranslationUpdate {
    type V = UpdateModel;

    open spec fn view(&self) -> UpdateModel {
        update_view(*self)
    }
}

impl View for SubstitutionUpdate {
    type V = SubUpdateModel;

    open spec fn view(&self) -> SubUpdateModel {
        sub_update_view(*self)
    }
}

/// The keys of an ordered mapping, in order.
pub open spec fn keys_of<A>(s: Seq<(Seq<char>, A)>) -> Seq<Seq<char>> {
    Seq::new(s.len(), |i: int| s[i].0)
}

/// What an ordered mapping holds under a key.
pub open spec fn lookup<A>(s: Seq<(Seq<char>, A)>, key: Seq<char>) -> Option<A> {
    if keys_of(s).contains(key) {
        Some(s[keys_of(s).index_of(key)].1)
    } else {
        None
    }
}

/// An ordered mapping with a value stored under a key: in place of the old
/// value when the key is present, as a new last entry when it is not.
pub open spec fn put<A>(s: Seq<(Seq<char>, A)>, key: Seq<char>, a: A) -> Seq<(Seq<char>, A)> {
    if keys_of(s).contains(key) {
        s.update(keys_of(s).index_of(key), (key, a))
    } else {
        s.push((key, a))
    }
}

/// An ordered mapping without the entry of a key; the other entries keep their order.
pub open spec fn take_out<A>(s: Seq<(Seq<char>, A)>, key: Seq<char>) -> Seq<(Seq<char>, A)> {
    if keys_of(s).contains(key) {
        s.remove(keys_of(s).index_of(key))
    } else {
        s
    }
}

/// The keys of a map of localizations are the keys of its model.
pub proof fn lemma_cases_keys(m: Cases)
    requires
        m.wf(),
    ensures
        keys_of(cases_view(m)) == m.keys(),
{
    assert(keys_of(cases_view(m)) =~= m.keys());
}

/// The keys of a map of selectors are the keys of its model.
pub proof fn lemma_variations_keys(m: Variations)
    requires
        m.wf(),
    ensures
        keys_of(variations_view(m)) == m.keys(),
{
    assert(keys_of(variations_view(m)) =~= m.keys());
}

/// The keys of a map of substitutions are the keys of its model.
pub proof fn lemma_subs_keys(m: OrderedMap<XcSubstitution>)
    requires
        m.wf(),
    ensures
        keys_of(subs_view(m)) == m.keys(),
{
    assert(keys_of(subs_view(m)) =~= m.keys());
}

/// Removes the localization stored under a key and returns it.
pub fn cases_take(m: &mut Cases, key: &str) -> (r: Option<XcLocalization>)
    ensures
        final(m).wf(),
        cases_view(*final(m)) == take_out(cases_view(*old(m)), key@),
        match r {
            Some(l) => lookup(cases_view(*old(m)), key@) == Some(l@),
            None => lookup(cases_view(*old(m)), key@) is None,
        },
{
    let r = m.shift_remove(key);
    proof {
        lemma_cases_keys(*old(m));
        assert(cases_view(*m) =~= take_out(cases_view(*old(m)), key@));
    }
    r
}

/// Stores a localization under a key.
pub fn cases_put(m: &mut Cases, key: String, l: XcLocalization)
    ensures
        final(m).wf(),
        cases_view(*final(m)) == put(cases_view(*old(m)), key@, l@),
{
    let prev = m.insert(key, l);
    proof {
        lemma_cases_keys(*old(m));
        assert(cases_view(*m) =~= put(cases_view(*old(m)), key@, l@));
    }
}

/// Removes the cases stored under a selector and returns them.
pub fn variations_take(m: &mut Variations, key: &str) -> (r: Option<Cases>)
    ensures
        final(m).wf(),
        variations_view(*final(m)) == take_out(variations_view(*old(m)), key@),
        match r {
            Some(c) => lookup(variations_view(*old(m)), key@) == Some(cases_view(c)),
            None => lookup(variations_view(*old(m)), key@) is None,
        },
{
    let r = m.shift_remove(key);
    proof {
        lemma_variations_keys(*old(m));
        assert(variations_view(*m) =~= take_out(variations_view(*old(m)), key@));
    }
    r
}

/// Stores cases under a selector.
pub fn variations_put(m: &mut Variations, key: String, c: Cases)
    ensures
        final(m).wf(),
        variations_view(*final(m)) == put(variations_view(*old(m)), key@, cases_view(c)),
{
    let prev = m.insert(key, c);
    proof {
        lemma_variations_keys(*old(m));
        assert(variations_view(*m) =~= put(variations_view(*old(m)), key@, cases_view(c)));
    }
}

/// Removes the substitution stored under a name and returns it.
pub fn subs_take(m: &mut OrderedMap<XcSubstitution>, key: &str) -> (r: Option<XcSubstitution>)
    ensures
        final(m).wf(),
        subs_view(*final(m)) == take_out(subs_view(*old(m)), key@),
        match r {
            Some(s) => lookup(subs_view(*old(m)), key@) == Some(s@),
            None => lookup(subs_view(*old(m)), key@) is None,
        },
{
    let r = m.shift_remove(key);
    proof {
        lemma_subs_keys(*old(m));
        assert(subs_view(*m) =~= take_out(subs_view(*old(m)), key@));
    }
    r
}

/// Stores a substitution under a name.
pub fn subs_put(m: &mut OrderedMap<XcSubstitution>, key: String, s: XcSubstitution)
    ensures
        final(m).wf(),
        subs_view(*final(m)) == put(subs_view(*old(m)), key@, s@),
{
    let prev = m.insert(key, s);
    proof {
        lemma_subs_keys(*old(m));
        assert(subs_view(*m) =~= put(subs_view(*old(m)), key@, s@));
    }
}

/// A field after an update: kept, cleared or replaced.
pub open spec fn merge_field<T>(current: Option<T>, change: FieldUpdate<T>) -> Option<T> {
    match change {
        FieldUpdate::Unchanged => current,
        FieldUpdate::Clear => None,
        FieldUpdate::Replace(v) => Some(v),
    }
}

/// A string unit after an update of its state and its value: the two fields
/// merged, the unit sanitized, and absent when nothing is left in it.
pub open spec fn merged_unit(
    unit: Option<UnitModel>,
    state: FieldUpdate<Seq<char>>,
    value: FieldUpdate<Seq<char>>,
) -> Option<UnitModel> {
    let base = match unit {
        Some(u) => u,
        None => UnitModel { state: None, value: None },
    };
    let merged = sanitize_unit(
        UnitModel { state: merge_field(base.state, state), value: merge_field(base.value, value) },
    );
    if unit_has_content(merged) {
        Some(merged)
    } else {
        None
    }
}

/// The cases of one selector after the updates of its cases, applied in
/// order: the case's localization, or an empty one where the selector has no
/// such case, is updated and becomes the last case; where the update leaves
/// it empty the case goes. Cases that no update names stay as they are.
pub open spec fn merged_cases(entry: CasesModel, changes: CaseUpdatesModel) -> CasesModel
    decreases changes, 0nat,
{
    if changes.len() == 0 {
        entry
    } else {
        let before = merged_cases(entry, changes.drop_last());
        let key = changes.last().0;
        let nested = match lookup(before, key) {
            Some(l) => l,
            None => empty_loc(),
        };
        let updated = apply_update_spec(nested, changes.last().1);
        if loc_is_empty(updated) {
            take_out(before, key)
        } else {
            put(take_out(before, key), key, updated)
        }
    }
}

/// The selectors that the updates of a list of selectors do not name.
pub open spec fn selectors_left(
    existing: VariationsModel,
    changes: VariationUpdatesModel,
) -> VariationsModel
    decreases changes.len(),
{
    if changes.len() == 0 {
        existing
    } else {
        take_out(selectors_left(existing, changes.drop_last()), changes.last().0)
    }
}

/// The selectors that the updates of a list of selectors name, each with its
/// cases merged, in the order of the updates; a selector left without a case
/// is not among them.
pub open spec fn selectors_built(
    existing: VariationsModel,
    changes: VariationUpdatesModel,
) -> VariationsModel
    decreases changes, 1nat,
{
    if changes.len() == 0 {
        Seq::empty()
    } else {
        let before = selectors_built(existing, changes.drop_last());
        let left = selectors_left(existing, changes.drop_last());
        let entry = match lookup(left, changes.last().0) {
            Some(c) => c,
            None => Seq::empty(),
        };
        let cases = merged_cases(entry, changes.last().1);
        if cases.len() > 0 {
            put(before, changes.last().0, cases)
        } else {
            before
        }
    }
}

/// The selectors `built` followed by those of `left` that have a case.
pub open spec fn with_selectors(built: VariationsModel, left: VariationsModel) -> VariationsModel
    decreases left.len(),
{
    if left.len() == 0 {
        built
    } else {
        let before = with_selectors(built, left.drop_last());
        if left.last().1.len() > 0 {
            put(before, left.last().0, left.last().1)
        } else {
            before
        }
    }
}

/// The variations after an update of them: the selectors that the update
/// names come first, merged; those that it does not name follow unchanged;
/// then the whole is normalized by the rules of the top level.
pub open spec fn merged_variations(
    existing: VariationsModel,
    changes: VariationUpdatesModel,
) -> VariationsModel
    decreases changes, 2nat,
{
    normalize_variations(
        with_selectors(selectors_built(existing, changes), selectors_left(existing, changes)),
        VariationContext::TopLevel,
    )
}

/// The substitutions that a list of substitution updates does not name.
pub open spec fn subs_left(
    existing: Seq<(Seq<char>, SubModel)>,
    changes: Seq<(Seq<char>, Option<SubUpdateModel>)>,
) -> Seq<(Seq<char>, SubModel)>
    decreases changes.len(),
{
    if changes.len() == 0 {
        existing
    } else {
        take_out(subs_left(existing, changes.drop_last()), changes.last().0)
    }
}

/// The substitutions that a list of updates creates or merges, in the order
/// of the updates; one that an update deletes or leaves empty is not among them.
pub open spec fn subs_built(
    existing: Seq<(Seq<char>, SubModel)>,
    changes: Seq<(Seq<char>, Option<SubUpdateModel>)>,
) -> Seq<(Seq<char>, SubModel)>
    decreases changes, 0nat,
{
    if changes.len() == 0 {
        Seq::empty()
    } else {
        let before = subs_built(existing, changes.drop_last());
        match changes.last().1 {
            Some(u) => {
                let left = subs_left(existing, changes.drop_last());
                let base = match lookup(left, changes.last().0) {
                    Some(s) => s,
                    None => empty_sub(),
                };
                let updated = apply_sub_update_spec(base, u);
                if sub_is_empty(updated) {
                    before
                } else {
                    put(before, changes.last().0, updated)
                }
            },
            None => before,
        }
    }
}

/// The substitutions `built` followed by those of `left` that are not empty.
pub open spec fn with_subs(
    built: Seq<(Seq<char>, SubModel)>,
    left: Seq<(Seq<char>, SubModel)>,
) -> Seq<(Seq<char>, SubModel)>
    decreases left.len(),
{
    if left.len() == 0 {
        built
    } else {
        let before = with_subs(built, left.drop_last());
        if sub_is_empty(left.last().1) {
            before
        } else {
            put(before, left.last().0, left.last().1)
        }
    }
}

/// The substitutions after an update of them.
pub open spec fn merged_subs(
    existing: Seq<(Seq<char>, SubModel)>,
    changes: Seq<(Seq<char>, Option<SubUpdateModel>)>,
) -> Seq<(Seq<char>, SubModel)>
    decreases changes, 1nat,
{
    with_subs(subs_built(existing, changes), subs_left(existing, changes))
}

/// A substitution after a partial update.
pub open spec fn apply_sub_update_spec(target: SubModel, update: SubUpdateModel) -> SubModel
    decreases update, 0nat,
{
    SubModel {
        arg_num: merge_field(target.arg_num, update.arg_num),
        format_specifier: merge_field(target.format_specifier, update.format_specifier),
        unit: merged_unit(target.unit, update.state, update.value),
        variations: match update.variations {
            Some(changes) => merged_variations(target.variations, changes),
            None => target.variations,
        },
    }
}

/// A localization after a partial update: its string unit merged, its
/// variations and its substitutions merged where the update names any.
pub open spec fn apply_update_spec(target: LocModel, update: UpdateModel) -> LocModel
    decreases update, 0nat,
{
    LocModel {
        unit: merged_unit(target.unit, update.state, update.value),
        substitutions: match update.substitutions {
            Some(changes) => merged_subs(target.substitutions, changes),
            None => target.substitutions,
        },
        variations: match update.variations {
            Some(changes) => merged_variations(target.variations, changes),
            None => target.variations,
        },
    }
}

fn merge_text(current: &mut Option<String>, change: &FieldUpdate<String>)
    ensures
        text_view(*final(current)) == merge_field(text_view(*old(current)), text_change(*change)),
{
    match change {
        FieldUpdate::Unchanged => {},
        FieldUpdate::Clear => {
            *current = None;
        },
        FieldUpdate::Replace(s) => {
            *current = Some(s.clone());
        },
    }
}

fn merge_string_unit(
    unit: &mut Option<XcStringUnit>,
    state: &FieldUpdate<String>,
    value: &FieldUpdate<String>,
)
    ensures
        unit_view(*final(unit)) == merged_unit(
            unit_view(*old(unit)),
            text_change(*state),
            text_change(*value),
        ),
{
    let mut u = match unit.take() {
        Some(u) => u,
        None => XcStringUnit::default(),
    };
    merge_text(&mut u.state, state);
    merge_text(&mut u.value, value);
    sanitize_string_unit(&mut u);
    if string_unit_has_content(&u) {
        *unit = Some(u);
    }
}

/// Applies the updates of the cases of one selector: see [`merged_cases`].
pub fn merge_cases(entry: &mut Cases, changes: &CaseUpdates)
    ensures
        final(entry).wf(),
        cases_view(*final(entry)) == merged_cases(cases_view(*old(entry)), case_updates_view(*changes)),
    decreases *changes,
{
    let ghost start = cases_view(*entry);
    let ghost all = case_updates_view(*changes);
    let n = changes.len();
    let _ = entry.len();
    let mut i: usize = 0;
    while i < n
        invariant
            changes.wf(),
            entry.wf(),
            all == case_updates_view(*changes),
            n == changes.values().len(),
            i <= n,
            cases_view(*entry) == merged_cases(start, all.take(i as int)),
        decreases n - i,
    {
        proof {
            changes.lemma_decreases();
        }
        let key = changes.key_at(i);
        let mut nested = match cases_take(entry, key.as_str()) {
            Some(l) => l,
            None => XcLocalization::default(),
        };
        apply_update(&mut nested, changes.value_at(i));
        if !localization_is_empty(&nested) {
            cases_put(entry, key.clone(), nested);
        }
        i += 1;
        proof {
            let next = all.take(i as int);
            assert(next.drop_last() =~= all.take(i - 1));
            assert(next.last() == all[i - 1]);
        }
    }
    assert(all.take(n as int) =~= all);
}

/// Applies an update of the variations: see [`merged_variations`].
pub fn merge_variations(existing: Variations, changes: &VariationUpdates) -> (r: Variations)
    ensures
        r.wf(),
        variations_view(r) == merged_variations(
            variations_view(existing),
            variation_updates_view(*changes),
        ),
    decreases *changes,
{
    let ghost start = variations_view(existing);
    let ghost all = variation_updates_view(*changes);
    let mut left = existing;
    let mut built: Variations = OrderedMap::new();
    let n = changes.len();
    let _ = left.len();
    let mut i: usize = 0;
    assert(variations_view(built) =~= selectors_built(start, all.take(0)));
    while i < n
        invariant
            changes.wf(),
            left.wf(),
            built.wf(),
            all == variation_updates_view(*changes),
            n == changes.values().len(),
            i <= n,
            variations_view(left) == selectors_left(start, all.take(i as int)),
            variations_view(built) == selectors_built(start, all.take(i as int)),
        decreases n - i,
    {
        proof {
            changes.lemma_decreases();
        }
        let selector = changes.key_at(i);
        let mut entry: Cases = match variations_take(&mut left, selector.as_str()) {
            Some(c) => c,
            None => OrderedMap::new(),
        };
        assert(cases_view(entry) =~= match lookup(
            selectors_left(start, all.take(i as int)),
            selector@,
        ) {
            Some(c) => c,
            None => Seq::empty(),
        });
        merge_cases(&mut entry, changes.value_at(i));
        if !entry.is_empty() {
            variations_put(&mut built, selector.clone(), entry);
        }
        i += 1;
        proof {
            let next = all.take(i as int);
            assert(next.drop_last() =~= all.take(i - 1));
            assert(next.last() == all[i - 1]);
        }
    }
    assert(all.take(n as int) =~= all);
    let ghost built_view = variations_view(built);
    let ghost left_view = variations_view(left);
    let mut remaining = left.len();
    let ghost mut p: int = 0;
    assert(left_view.skip(0) =~= left_view);
    while remaining > 0
        invariant
            left.wf(),
            built.wf(),
            0 <= p <= left_view.len(),
            remaining == left_view.len() - p,
            remaining == left.values().len(),
            variations_view(left) == left_view.skip(p),
            variations_view(built) == with_selectors(built_view, left_view.take(p)),
        decreases remaining,
    {
        let ghost before = variations_view(left);
        let (selector, cases) = left.shift_remove_index(0);
        assert(before[0] == (selector@, cases_view(cases)));
        if !cases.is_empty() {
            variations_put(&mut built, selector, cases);
        }
        remaining -= 1;
        proof {
            p = p + 1;
            let next = left_view.take(p);
            assert(next.drop_last() =~= left_view.take(p - 1));
            assert(next.last() == left_view[p - 1]);
            assert(before[0] == left_view[p - 1]);
            assert(variations_view(left) =~= before.remove(0));
            assert(before.remove(0) =~= left_view.skip(p));
        }
    }
    assert(left_view.take(p) =~= left_view);
    validate_and_normalize_variations(&mut built, VariationContext::TopLevel);
    built
}

/// Applies an update of the substitutions: see [`merged_subs`].
pub fn merge_substitutions(
    existing: OrderedMap<XcSubstitution>,
    changes: &OrderedMap<Option<SubstitutionUpdate>>,
) -> (r: OrderedMap<XcSubstitution>)
    ensures
        r.wf(),
        subs_view(r) == merged_subs(subs_view(existing), sub_updates_view(*changes)),
    decreases *changes,
{
    let ghost start = subs_view(existing);
    let ghost all = sub_updates_view(*changes);
    let mut left = existing;
    let mut built: OrderedMap<XcSubstitution> = OrderedMap::new();
    let n = changes.len();
    let _ = left.len();
    let mut i: usize = 0;
    assert(subs_view(built) =~= subs_built(start, all.take(0)));
    while i < n
        invariant
            changes.wf(),
            left.wf(),
            built.wf(),
            all == sub_updates_view(*changes),
            n == changes.values().len(),
            i <= n,
            subs_view(left) == subs_left(start, all.take(i as int)),
            subs_view(built) == subs_built(start, all.take(i as int)),
        decreases n - i,
    {
        proof {
            changes.lemma_decreases();
        }
        let name = changes.key_at(i);
        let taken = subs_take(&mut left, name.as_str());
        match changes.value_at(i) {
            Some(update) => {
                let mut sub = match taken {
                    Some(s) => s,
                    None => XcSubstitution::default(),
                };
                assert(decreases_to!(changes.values()[i as int] => changes.values()[i as int]->0));
                apply_substitution_update(&mut sub, update);
                if !substitution_is_empty(&sub) {
                    subs_put(&mut built, name.clone(), sub);
                }
            },
            None => {},
        }
        i += 1;
        proof {
            let next = all.take(i as int);
            assert(next.drop_last() =~= all.take(i - 1));
            assert(next.last() == all[i - 1]);
        }
    }
    assert(all.take(n as int) =~= all);
    let ghost built_view = subs_view(built);
    let ghost left_view = subs_view(left);
    let mut remaining = left.len();
    let ghost mut p: int = 0;
    assert(left_view.skip(0) =~= left_view);
    while remaining > 0
        invariant
            left.wf(),
            built.wf(),
            0 <= p <= left_view.len(),
            remaining == left_view.len() - p,
            remaining == left.values().len(),
            subs_view(left) == left_view.skip(p),
            subs_view(built) == with_subs(built_view, left_view.take(p)),
        decreases remaining,
    {
        let ghost before = subs_view(left);
        let (name, sub) = left.shift_remove_index(0);
        assert(before[0] == (name@, sub@));
        if !substitution_is_empty(&sub) {
            subs_put(&mut built, name, sub);
        }
        remaining -= 1;
        proof {
            p = p + 1;
            let next = left_view.take(p);
            assert(next.drop_last() =~= left_view.take(p - 1));
            assert(next.last() == left_view[p - 1]);
            assert(before[0] == left_view[p - 1]);
            assert(subs_view(left) =~= before.remove(0));
            assert(before.remove(0) =~= left_view.skip(p));
        }
    }
    assert(left_view.take(p) =~= left_view);
    built
}

/// Applies a partial update to a substitution: see [`apply_sub_update_spec`].
pub fn apply_substitution_update(target: &mut XcSubstitution, update: &SubstitutionUpdate)
    ensures
        final(target)@ == apply_sub_update_spec(old(target)@, update@),
    decreases *update,
{
    merge_string_unit(&mut target.string_unit, &update.state, &update.value);
    match &update.arg_num {
        FieldUpdate::Unchanged => {},
        FieldUpdate::Clear => {
            target.arg_num = None;
        },
        FieldUpdate::Replace(n) => {
            target.arg_num = Some(*n);
        },
    }
    merge_text(&mut target.format_specifier, &update.format_specifier);
    match &update.variations {
        Some(changes) => {
            assert(decreases_to!(update.variations => update.variations->0));
            let existing = match target.variations.take() {
                Some(m) => m,
                None => OrderedMap::new(),
            };
            assert(variations_view(existing) =~= old(target)@.variations);
            let merged = merge_variations(existing, changes);
            target.variations = Some(merged);
        },
        None => {},
    }
}

/// Applies a partial update to a localization: see [`apply_update_spec`].
pub fn apply_update(target: &mut XcLocalization, update: &TranslationUpdate)
    ensures
        final(target)@ == apply_update_spec(old(target)@, update@),
    decreases *update,
{
    merge_string_unit(&mut target.string_unit, &update.state, &update.value);
    match &update.variations {
        Some(changes) => {
            assert(decreases_to!(update.variations => update.variations->0));
            let existing = match target.variations.take() {
                Some(m) => m,
                None => OrderedMap::new(),
            };
            assert(variations_view(existing) =~= old(target)@.variations);
            let merged = merge_variations(existing, changes);
            target.variations = Some(merged);
        },
        None => {},
    }
    match &update.substitutions {
        Some(changes) => {
            assert(decreases_to!(update.substitutions => update.substitutions->0));
            let existing = match target.substitutions.take() {
                Some(m) => m,
                None => OrderedMap::new(),
            };
            assert(subs_view(existing) =~= old(target)@.substitutions);
            let merged = merge_substitutions(existing, changes);
            target.substitutions = Some(merged);
        },
        None => {},
    }
}

/// The model of an optional text as an update that sets or clears a field.
pub open spec fn set_or_clear(t: Option<Seq<char>>) -> FieldUpdate<Seq<char>> {
    match t {
        Some(s) => FieldUpdate::Replace(s),
        None => FieldUpdate::Clear,
    }
}

fn set_or_clear_text(t: Option<String>) -> (r: FieldUpdate<String>)
    ensures
        text_change(r) == set_or_clear(text_view(t)),
{
    match t {
        Some(s) => FieldUpdate::Replace(s),
        None => FieldUpdate::Clear,
    }
}

impl Default for TranslationUpdate {
    /// An update that changes nothing.
    fn default() -> (r: Self)
        ensures
            r@ == no_update(),
    {
        TranslationUpdate {
            state: FieldUpdate::Unchanged,
            value: FieldUpdate::Unchanged,
            substitutions: None,
            variations: None,
        }
    }
}

impl Default for SubstitutionUpdate {
    /// An update that changes nothing.
    fn default() -> (r: Self)
        ensures
            r@ == (SubUpdateModel {
                state: FieldUpdate::Unchanged,
                value: FieldUpdate::Unchanged,
                arg_num: FieldUpdate::Unchanged,
                format_specifier: FieldUpdate::Unchanged,
                variations: None,
            }),
    {
        SubstitutionUpdate {
            state: FieldUpdate::Unchanged,
            value: FieldUpdate::Unchanged,
            arg_num: FieldUpdate::Unchanged,
            format_specifier: FieldUpdate::Unchanged,
            variations: None,
        }
    }
}

/// The keys of a map of selector updates are the keys of its model.
pub proof fn lemma_variation_updates_keys(m: VariationUpdates)
    requires
        m.wf(),
    ensures
        keys_of(variation_updates_view(m)) == m.keys(),
{
    assert(keys_of(variation_updates_view(m)) =~= m.keys());
}

/// The keys of a map of case updates are the keys of its model.
pub proof fn lemma_case_updates_keys(m: CaseUpdates)
    requires
        m.wf(),
    ensures
        keys_of(case_updates_view(m)) == m.keys(),
{
    assert(keys_of(case_updates_view(m)) =~= m.keys());
}

/// The case updates of a selector, or none where the selector is not addressed.
pub open spec fn case_updates_of(vars: VariationUpdatesModel, selector: Seq<char>) -> CaseUpdatesModel {
    match lookup(vars, selector) {
        Some(c) => c,
        None => Seq::empty(),
    }
}

/// The variation updates of an update, or none where it has none.
pub open spec fn variation_updates_of(u: UpdateModel) -> VariationUpdatesModel {
    match u.variations {
        Some(v) => v,
        None => Seq::empty(),
    }
}

impl TranslationUpdate {
    /// The update that sets the value and the state as given, clearing the
    /// one that is `None`; a value that is not empty and comes without a
    /// state gets the state `translated`.
    pub fn from_value_state(value: Option<String>, state: Option<String>) -> (r: Self)
        ensures
            r@.value == set_or_clear(text_view(value)),
            r@.state == set_or_clear(
                if text_view(value) is Some && text_view(value)->0.len() > 0 && text_view(state)
                    is None {
                    Some(translated_state())
                } else {
                    text_view(state)
                },
            ),
            r@.substitutions is None,
            r@.variations is None,
    {
        let has_text = match &value {
            Some(v) => !v.as_str().is_empty(),
            None => false,
        };
        let normalized_state = if has_text && state.is_none() {
            Some(String::from_str("translated"))
        } else {
            state
        };
        TranslationUpdate {
            state: set_or_clear_text(normalized_state),
            value: set_or_clear_text(value),
            substitutions: None,
            variations: None,
        }
    }

    /// The update with its variation updates replaced.
    pub fn with_variations(self, variations: VariationUpdates) -> (r: Self)
        ensures
            r@.variations == Some(variation_updates_view(variations)),
            r@.state == self@.state,
            r@.value == self@.value,
            r@.substitutions == self@.substitutions,
    {
        let TranslationUpdate { state, value, substitutions, variations: _ } = self;
        TranslationUpdate { state, value, substitutions, variations: Some(variations) }
    }

    /// The update with one more case update: it is stored under the case of
    /// the selector, both of which keep their place where the update
    /// addresses them already and come last where it does not.
    pub fn add_variation(self, selector: &str, case: &str, update: TranslationUpdate) -> (r: Self)
        ensures
            r@.variations == Some(
                put(
                    variation_updates_of(self@),
                    selector@,
                    put(case_updates_of(variation_updates_of(self@), selector@), case@, update@),
                ),
            ),
            r@.state == self@.state,
            r@.value == self@.value,
            r@.substitutions == self@.substitutions,
    {
        let TranslationUpdate { state, value, substitutions, variations } = self;
        let mut variations: VariationUpdates = match variations {
            Some(v) => v,
            None => OrderedMap::new(),
        };
        let ghost before = variation_updates_view(variations);
        assert(before =~= variation_updates_of(self@));
        let found = variations.index_of(selector);
        proof {
            lemma_variation_updates_keys(variations);
        }
        match found {
            Some(i) => {
                proof {
                    variations.lemma_position(i as int);
                }
                let cases = variations.value_at_mut(i);
                let ghost inner = case_updates_view(*cases);
                let _ = cases.len();
                proof {
                    lemma_case_updates_keys(*cases);
                }
                cases.insert(String::from_str(case), update);
                proof {
                    assert(case_updates_view(*cases) =~= put(inner, case@, update@));
                    assert(variation_updates_view(variations) =~= put(
                        before,
                        selector@,
                        put(case_updates_of(before, selector@), case@, update@),
                    ));
                }
            },
            None => {
                let mut cases: CaseUpdates = OrderedMap::new();
                let ghost inner = case_updates_view(cases);
                proof {
                    lemma_case_updates_keys(cases);
                }
                cases.insert(String::from_str(case), update);
                proof {
                    assert(inner =~= Seq::empty());
                    assert(case_updates_view(cases) =~= put(inner, case@, update@));
                }
                variations.insert(String::from_str(selector), cases);
                proof {
                    assert(variation_updates_view(variations) =~= put(
                        before,
                        selector@,
                        put(case_updates_of(before, selector@), case@, update@),
                    ));
                }
            },
        }
        TranslationUpdate { state, value, substitutions, variations: Some(variations) }
    }
}

} // verus!
