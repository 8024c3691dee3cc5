use crate::codec::lemma_strings_keys;
use crate::model::{
    Cases, CasesModel, CatalogModel, EntryModel, LocModel, UnitModel, XcLocalization,
    XcStringEntry, XcStringUnit, cases_view, empty_loc, strings_view,
};
use crate::languages::{entry_has_language, language_in_entries};
use crate::normalize::needs_translation_state;
use crate::ordered_map::OrderedMap;
use crate::update::{
    TranslationUpdate, apply_update, apply_update_spec, cases_put, cases_take, keys_of,
    lemma_cases_keys, lookup, put, take_out,
};
use crate::value::{TranslationValue, value_of_loc};
use vstd::prelude::*;
use vstd::string::StringExecFns;

verus! {

/// An entry that holds nothing: the value of the type's default.
pub open spec fn default_entry() -> EntryModel {
    EntryModel {
        comment: None,
        extraction_state: None,
        localizations: Seq::empty(),
        should_translate: None,
    }
}

impl Default for XcStringEntry {
    /// An entry that holds nothing.
    fn default() -> (r: Self)
        ensures
            r@ == default_entry(),
    {
        let r = XcStringEntry {
            comment: None,
            extraction_state: None,
            localizations: OrderedMap::new(),
            should_translate: None,
        };
        assert(r@.localizations =~= Seq::empty());
        r
    }
}

/// The entry of a key, or an empty entry where the catalog has none.
pub open spec fn entry_or_default(strings: Seq<(Seq<char>, EntryModel)>, key: Seq<char>) -> EntryModel {
    match lookup(strings, key) {
        Some(e) => e,
        None => default_entry(),
    }
}

/// The localization of a language, or an empty one where there is none.
pub open spec fn loc_or_default(cases: CasesModel, language: Seq<char>) -> LocModel {
    match lookup(cases, language) {
        Some(l) => l,
        None => empty_loc(),
    }
}

/// An entry with other localizations.
pub open spec fn with_localizations(e: EntryModel, localizations: CasesModel) -> EntryModel {
    EntryModel {
        comment: e.comment,
        extraction_state: e.extraction_state,
        localizations,
        should_translate: e.should_translate,
    }
}

/// A catalog with other entries.
pub open spec fn with_strings(c: CatalogModel, strings: Seq<(Seq<char>, EntryModel)>) -> CatalogModel {
    CatalogModel {
        raw: c.raw,
        version: c.version,
        format_version: c.format_version,
        source_language: c.source_language,
        strings,
    }
}

/// The localization of a key and a language after a partial update of it. A
/// pair that the catalog does not hold starts from an empty localization.
pub open spec fn upserted_loc(
    strings: Seq<(Seq<char>, EntryModel)>,
    key: Seq<char>,
    language: Seq<char>,
    update: crate::update::UpdateModel,
) -> LocModel {
    apply_update_spec(loc_or_default(entry_or_default(strings, key).localizations, language), update)
}

/// The entries after a partial update of one key and language: the entry
/// keeps its place, or comes last where it is new; so does the localization
/// among those of the entry.
pub open spec fn upserted_strings(
    strings: Seq<(Seq<char>, EntryModel)>,
    key: Seq<char>,
    language: Seq<char>,
    update: crate::update::UpdateModel,
) -> Seq<(Seq<char>, EntryModel)> {
    let e = entry_or_default(strings, key);
    put(
        strings,
        key,
        with_localizations(
            e,
            put(e.localizations, language, upserted_loc(strings, key, language, update)),
        ),
    )
}

/// The position of the entry of a key, which is created empty, as the last
/// entry, where the catalog has none.
pub fn entry_index(strings: &mut OrderedMap<XcStringEntry>, key: &str) -> (i: usize)
    ensures
        final(strings).wf(),
        i < final(strings).values().len(),
        final(strings).keys()[i as int] == key@,
        final(strings).values()[i as int]@ == entry_or_default(strings_view(*old(strings)), key@),
        strings_view(*final(strings)) == put(
            strings_view(*old(strings)),
            key@,
            entry_or_default(strings_view(*old(strings)), key@),
        ),
{
    let n = strings.len();
    proof {
        lemma_strings_keys(*strings);
    }
    match strings.index_of(key) {
        Some(i) => {
            proof {
                strings.lemma_position(i as int);
                assert(strings_view(*strings) =~= put(
                    strings_view(*strings),
                    key@,
                    entry_or_default(strings_view(*strings), key@),
                ));
            }
            i
        },
        None => {
            let prev = strings.insert(String::from_str(key), XcStringEntry::default());
            proof {
                assert(strings_view(*strings) =~= put(
                    strings_view(*old(strings)),
                    key@,
                    entry_or_default(strings_view(*old(strings)), key@),
                ));
            }
            n
        },
    }
}

/// Applies a partial update to the localization of a language among those of
/// an entry, and reports the localization as it then stands.
pub fn upsert_in_cases(cases: &mut Cases, language: &str, update: &TranslationUpdate) -> (updated:
    TranslationValue)
    ensures
        final(cases).wf(),
        cases_view(*final(cases)) == put(
            cases_view(*old(cases)),
            language@,
            apply_update_spec(loc_or_default(cases_view(*old(cases)), language@), update@),
        ),
        updated@ == value_of_loc(
            apply_update_spec(loc_or_default(cases_view(*old(cases)), language@), update@),
        ),
{
    let _ = cases.len();
    proof {
        lemma_cases_keys(*cases);
    }
    match cases.index_of(language) {
        Some(j) => {
            proof {
                cases.lemma_position(j as int);
            }
            let loc = cases.value_at_mut(j);
            apply_update(loc, update);
            let updated = TranslationValue::from_localization(loc);
            proof {
                assert(cases_view(*cases) =~= put(
                    cases_view(*old(cases)),
                    language@,
                    apply_update_spec(loc_or_default(cases_view(*old(cases)), language@), update@),
                ));
            }
            updated
        },
        None => {
            let mut loc = XcLocalization::default();
            apply_update(&mut loc, update);
            let updated = TranslationValue::from_localization(&loc);
            cases_put(cases, String::from_str(language), loc);
            updated
        },
    }
}

/// Applies a partial update to one key and language of the entries: see
/// [`upserted_strings`]. Returns the localization as it then stands.
pub fn upsert_in_strings(
    strings: &mut OrderedMap<XcStringEntry>,
    key: &str,
    language: &str,
    update: &TranslationUpdate,
) -> (updated: TranslationValue)
    ensures
        final(strings).wf(),
        strings_view(*final(strings)) == upserted_strings(
            strings_view(*old(strings)),
            key@,
            language@,
            update@,
        ),
        updated@ == value_of_loc(
            upserted_loc(strings_view(*old(strings)), key@, language@, update@),
        ),
{
    let ghost before = strings_view(*strings);
    let _ = strings.len();
    let i = entry_index(strings, key);
    let ghost mid = *strings;
    proof {
        lemma_strings_keys(*old(strings));
        lemma_strings_keys(mid);
        mid.lemma_position(i as int);
    }
    let entry = strings.value_at_mut(i);
    let updated = upsert_in_cases(&mut entry.localizations, language, update);
    proof {
        let e = entry_or_default(before, key@);
        let target = with_localizations(
            e,
            put(e.localizations, language@, upserted_loc(before, key@, language@, update@)),
        );
        assert(strings.values()[i as int]@ == target);
        assert(strings_view(*strings) =~= put(strings_view(mid), key@, target));
        lemma_put_twice(before, key@, e, target);
    }
    updated
}

/// Storing a value under a key and then another stores the other.
pub proof fn lemma_put_twice<A>(s: Seq<(Seq<char>, A)>, key: Seq<char>, a: A, b: A)
    ensures
        put(put(s, key, a), key, b) == put(s, key, b),
{
    let once = put(s, key, a);
    if keys_of(s).contains(key) {
        let i = keys_of(s).index_of(key);
        assert(keys_of(once) =~= keys_of(s));
        assert(once.update(i, (key, b)) =~= s.update(i, (key, b)));
    } else {
        assert(keys_of(once) =~= keys_of(s).push(key));
        assert(keys_of(once)[s.len() as int] == key);
        let j = keys_of(once).index_of(key);
        assert(keys_of(once)[j] == key);
        if j < s.len() {
            assert(keys_of(s)[j] == key);
        }
        assert(once.update(j, (key, b)) =~= s.push((key, b)));
    }
}

/// The placeholder that a new language gets in every entry: no value, and
/// the state `needs-translation`.
pub open spec fn placeholder_loc() -> LocModel {
    LocModel {
        unit: Some(UnitModel { state: Some(needs_translation_state()), value: None }),
        substitutions: Seq::empty(),
        variations: Seq::empty(),
    }
}

/// The placeholder of a new language: see [`placeholder_loc`].
pub fn placeholder_localization() -> (r: XcLocalization)
    ensures
        r@ == placeholder_loc(),
{
    XcLocalization {
        string_unit: Some(
            XcStringUnit { state: Some(String::from_str("needs-translation")), value: None },
        ),
        substitutions: None,
        variations: None,
    }
}

/// An entry with a placeholder for a language, unless it has the language.
pub open spec fn with_placeholder(e: EntryModel, language: Seq<char>) -> EntryModel {
    if entry_has_language(e, language) {
        e
    } else {
        with_localizations(e, e.localizations.push((language, placeholder_loc())))
    }
}

/// The entries, each with a placeholder for a language that it lacks.
pub open spec fn language_added(strings: Seq<(Seq<char>, EntryModel)>, language: Seq<char>) -> Seq<
    (Seq<char>, EntryModel),
> {
    Seq::new(strings.len(), |i: int| (strings[i].0, with_placeholder(strings[i].1, language)))
}

/// Gives every entry that lacks a language a placeholder for it: see [`language_added`].
pub fn add_language_to_entries(strings: &mut OrderedMap<XcStringEntry>, language: &str)
    ensures
        final(strings).wf(),
        strings_view(*final(strings)) == language_added(strings_view(*old(strings)), language@),
{
    let ghost before = strings_view(*strings);
    let n = strings.len();
    let mut i: usize = 0;
    while i < n
        invariant
            strings.wf(),
            before == strings_view(*old(strings)),
            n == strings.values().len(),
            n == old(strings).values().len(),
            i <= n,
            strings.keys() == old(strings).keys(),
            forall|k: int|
                0 <= k < i ==> (#[trigger] strings.values()[k])@ == with_placeholder(
                    old(strings).values()[k]@,
                    language@,
                ),
            forall|k: int| i <= k < n ==> strings.values()[k] == old(strings).values()[k],
        decreases n - i,
    {
        let entry = strings.value_at_mut(i);
        let _ = entry.localizations.len();
        proof {
            lemma_cases_keys(entry.localizations);
        }
        if !entry.localizations.contains_key(language) {
            let ghost locs = cases_view(entry.localizations);
            cases_put(&mut entry.localizations, String::from_str(language), placeholder_localization());
            assert(cases_view(entry.localizations) =~= locs.push((language@, placeholder_loc())));
        }
        i += 1;
    }
    assert(strings_view(*strings) =~= language_added(before, language@));
}

/// The entries without the localizations of a language; an entry that is
/// left without any localization goes.
pub open spec fn language_removed(strings: Seq<(Seq<char>, EntryModel)>, language: Seq<char>) -> Seq<
    (Seq<char>, EntryModel),
>
    decreases strings.len(),
{
    if strings.len() == 0 {
        Seq::empty()
    } else {
        let rest = language_removed(strings.drop_last(), language);
        let left = take_out(strings.last().1.localizations, language);
        if left.len() > 0 {
            rest.push((strings.last().0, with_localizations(strings.last().1, left)))
        } else {
            rest
        }
    }
}

/// Removes the localizations of a language: see [`language_removed`].
pub fn remove_language_from_entries(strings: &mut OrderedMap<XcStringEntry>, language: &str)
    ensures
        final(strings).wf(),
        strings_view(*final(strings)) == language_removed(strings_view(*old(strings)), language@),
{
    let ghost orig = *strings;
    let ghost orig_view = strings_view(orig);
    let mut remaining = strings.len();
    let mut i: usize = 0;
    let ghost mut p: int = 0;
    assert(strings_view(*strings).take(0) =~= language_removed(orig_view.take(0), language@));
    while remaining > 0
        invariant
            orig_view == strings_view(orig),
            strings.wf(),
            orig.wf(),
            0 <= p <= orig.values().len(),
            remaining == orig.values().len() - p,
            strings.values().len() == i + remaining,
            i + remaining <= usize::MAX,
            strings_view(*strings).take(i as int) == language_removed(
                orig_view.take(p),
                language@,
            ),
            forall|t: int|
                #![trigger strings.keys()[t]]
                #![trigger strings.values()[t]]
                i <= t < strings.values().len() ==> strings.keys()[t] == orig.keys()[t - i + p]
                    && strings.values()[t] == orig.values()[t - i + p],
        decreases remaining,
    {
        let ghost before = *strings;
        let entry = strings.value_at_mut(i);
        let removed = cases_take(&mut entry.localizations, language);
        let keep = !entry.localizations.is_empty();
        let ghost mid = *strings;
        if keep {
            i += 1;
        } else {
            strings.shift_remove_index(i);
        }
        remaining -= 1;
        proof {
            p = p + 1;
            let next = orig_view.take(p);
            assert(next.drop_last() =~= orig_view.take(p - 1));
            assert(next.last() == (orig.keys()[p - 1], orig.values()[p - 1]@));
            assert(strings_view(mid).take(i as int) =~= language_removed(next, language@)) by {
                if keep {
                    assert(strings_view(mid).take(i as int) =~= strings_view(before).take(
                        i - 1,
                    ).push(strings_view(mid)[i - 1]));
                } else {
                    assert(strings_view(mid).take(i as int) =~= strings_view(before).take(
                        i as int,
                    ));
                }
            }
            assert(strings_view(*strings).take(i as int) =~= strings_view(mid).take(i as int));
        }
    }
    proof {
        assert(strings_view(*strings).take(i as int) =~= strings_view(*strings));
        assert(orig_view.take(p) =~= orig_view);
    }
}

/// An entry whose localization of one language stands under another: it
/// leaves its place and becomes the last localization of the entry.
pub open spec fn with_language_renamed(e: EntryModel, old_language: Seq<char>, new_language: Seq<char>) -> EntryModel {
    match lookup(e.localizations, old_language) {
        Some(l) => with_localizations(
            e,
            put(take_out(e.localizations, old_language), new_language, l),
        ),
        None => e,
    }
}

/// The entries, each with its localization of one language moved to another.
pub open spec fn language_renamed(
    strings: Seq<(Seq<char>, EntryModel)>,
    old_language: Seq<char>,
    new_language: Seq<char>,
) -> Seq<(Seq<char>, EntryModel)> {
    Seq::new(
        strings.len(),
        |i: int| (strings[i].0, with_language_renamed(strings[i].1, old_language, new_language)),
    )
}

/// Moves the localizations of one language to another: see [`language_renamed`].
pub fn rename_language_in_entries(
    strings: &mut OrderedMap<XcStringEntry>,
    old_language: &str,
    new_language: &str,
)
    ensures
        final(strings).wf(),
        strings_view(*final(strings)) == language_renamed(
            strings_view(*old(strings)),
            old_language@,
            new_language@,
        ),
{
    let ghost before = strings_view(*strings);
    let n = strings.len();
    let mut i: usize = 0;
    while i < n
        invariant
            strings.wf(),
            before == strings_view(*old(strings)),
            n == strings.values().len(),
            n == old(strings).values().len(),
            i <= n,
            strings.keys() == old(strings).keys(),
            forall|k: int|
                0 <= k < i ==> (#[trigger] strings.values()[k])@ == with_language_renamed(
                    old(strings).values()[k]@,
                    old_language@,
                    new_language@,
                ),
            forall|k: int| i <= k < n ==> strings.values()[k] == old(strings).values()[k],
        decreases n - i,
    {
        let entry = strings.value_at_mut(i);
        match cases_take(&mut entry.localizations, old_language) {
            Some(l) => {
                cases_put(&mut entry.localizations, String::from_str(new_language), l);
            },
            None => {
                proof {
                    assert(cases_view(entry.localizations) =~= cases_view(
                        old(strings).values()[i as int].localizations,
                    ));
                }
            },
        }
        i += 1;
    }
    assert(strings_view(*strings) =~= language_renamed(before, old_language@, new_language@));
}

/// Whether any entry holds a localization for a language.
pub fn entries_have_language(strings: &OrderedMap<XcStringEntry>, language: &str) -> (r: bool)
    ensures
        r == language_in_entries(strings_view(*strings), language@),
{
    let n = strings.len();
    let mut i: usize = 0;
    while i < n
        invariant
            strings.wf(),
            n == strings.values().len(),
            i <= n,
            forall|k: int|
                0 <= k < i ==> !entry_has_language((#[trigger] strings_view(*strings)[k]).1, language@),
        decreases n - i,
    {
        let has = strings.value_at(i).localizations.contains_key(language);
        proof {
            lemma_cases_keys(strings.value_at_spec(i as int).localizations);
        }
        if has {
            assert(entry_has_language(strings_view(*strings)[i as int].1, language@));
            return true;
        }
        i += 1;
    }
    false
}

} // verus!
