use crate::languages::{is_language_list, language_list, texts};
use crate::model::{CatalogModel, EntryModel, XcStringEntry, XcStringsFile, strings_view};
use crate::update::{lemma_cases_keys, lookup};
use vstd::prelude::*;

verus! {

/// How far a language is translated: of `total` entries that are to be
/// translated, `translated` have a value in the language. The percentage of
/// the language is a hundred times their quotient.
#[derive(Debug, Clone)]
pub struct LanguageProgress {
    pub language: String,
    pub translated: usize,
    pub total: usize,
}

/// The keys that a language has not translated.
#[derive(Debug, Clone)]
pub struct UntranslatedKeys {
    pub language: String,
    pub keys: Vec<String>,
}

/// An entry is translated in a language when its localization for the
/// language has a value that is not empty.
pub open spec fn is_translated(e: EntryModel, language: Seq<char>) -> bool {
    match lookup(e.localizations, language) {
        Some(l) => match l.unit {
            Some(u) => match u.value {
                Some(v) => v.len() > 0,
                None => false,
            },
            None => false,
        },
        None => false,
    }
}

/// An entry is to be translated unless it is marked as not to be.
pub open spec fn is_translatable(e: EntryModel) -> bool {
    e.should_translate != Some(false)
}

/// The number of entries that are to be translated.
pub open spec fn translatable_count(strings: Seq<(Seq<char>, EntryModel)>) -> nat
    decreases strings.len(),
{
    if strings.len() == 0 {
        0
    } else {
        translatable_count(strings.drop_last()) + if is_translatable(strings.last().1) {
            1nat
        } else {
            0nat
        }
    }
}

/// The number of entries that are to be translated and are translated in a language.
pub open spec fn translated_count(strings: Seq<(Seq<char>, EntryModel)>, language: Seq<char>) -> nat
    decreases strings.len(),
{
    if strings.len() == 0 {
        0
    } else {
        translated_count(strings.drop_last(), language) + if is_translatable(strings.last().1)
            && is_translated(strings.last().1, language) {
            1nat
        } else {
            0nat
        }
    }
}

/// The keys of the entries that are not translated in a language, in the
/// order of the catalog.
pub open spec fn untranslated_keys(strings: Seq<(Seq<char>, EntryModel)>, language: Seq<char>) -> Seq<
    Seq<char>,
>
    decreases strings.len(),
{
    if strings.len() == 0 {
        Seq::empty()
    } else {
        let rest = untranslated_keys(strings.drop_last(), language);
        if is_translated(strings.last().1, language) {
            rest
        } else {
            rest.push(strings.last().0)
        }
    }
}

/// For each language of a list that has untranslated keys, the language and
/// those keys.
pub open spec fn untranslated_report(
    languages: Seq<Seq<char>>,
    strings: Seq<(Seq<char>, EntryModel)>,
) -> Seq<(Seq<char>, Seq<Seq<char>>)>
    decreases languages.len(),
{
    if languages.len() == 0 {
        Seq::empty()
    } else {
        let rest = untranslated_report(languages.drop_last(), strings);
        let keys = untranslated_keys(strings, languages.last());
        if keys.len() > 0 {
            rest.push((languages.last(), keys))
        } else {
            rest
        }
    }
}

/// For each language of a list, the language and its two counts; nothing
/// where no entry is to be translated.
pub open spec fn progress_report(
    languages: Seq<Seq<char>>,
    strings: Seq<(Seq<char>, EntryModel)>,
) -> Seq<(Seq<char>, nat, nat)> {
    if translatable_count(strings) == 0 {
        Seq::empty()
    } else {
        Seq::new(
            languages.len(),
            |i: int|
                (languages[i], translated_count(strings, languages[i]), translatable_count(strings)),
        )
    }
}

/// The report of the untranslated keys of a catalog: that of the list of its languages.
pub open spec fn is_untranslated_report(
    report: Seq<(Seq<char>, Seq<Seq<char>>)>,
    c: CatalogModel,
) -> bool {
    exists|languages: Seq<Seq<char>>|
        #[trigger] is_language_list(languages, c) && report == untranslated_report(
            languages,
            c.strings,
        )
}

/// The report of the progress of a catalog: that of the list of its languages.
pub open spec fn is_progress_report(report: Seq<(Seq<char>, nat, nat)>, c: CatalogModel) -> bool {
    exists|languages: Seq<Seq<char>>|
        #[trigger] is_language_list(languages, c) && report == progress_report(
            languages,
            c.strings,
        )
}

/// The first `n` rows of a progress report.
pub open spec fn progress_rows(
    languages: Seq<Seq<char>>,
    strings: Seq<(Seq<char>, EntryModel)>,
    n: int,
) -> Seq<(Seq<char>, nat, nat)> {
    Seq::new(
        n as nat,
        |i: int|
            (languages[i], translated_count(strings, languages[i]), translatable_count(strings)),
    )
}

/// The models of a list of untranslated keys.
pub open spec fn untranslated_view(v: Seq<UntranslatedKeys>) -> Seq<(Seq<char>, Seq<Seq<char>>)> {
    Seq::new(v.len(), |i: int| (v[i].language@, texts(v[i].keys@)))
}

/// The models of a list of progress counts.
pub open spec fn progress_view(v: Seq<LanguageProgress>) -> Seq<(Seq<char>, nat, nat)> {
    Seq::new(v.len(), |i: int| (v[i].language@, v[i].translated as nat, v[i].total as nat))
}

/// Whether an entry is translated in a language: see [`is_translated`].
pub fn entry_is_translated(entry: &XcStringEntry, language: &str) -> (r: bool)
    ensures
        r == is_translated(entry@, language@),
{
    let found = entry.localizations.get(language);
    proof {
        lemma_cases_keys(entry.localizations);
    }
    match found {
        Some(loc) => match &loc.string_unit {
            Some(unit) => match &unit.value {
                Some(v) => !v.as_str().is_empty(),
                None => false,
            },
            None => false,
        },
        None => false,
    }
}

fn keys_without(doc: &XcStringsFile, language: &str) -> (keys: Vec<String>)
    ensures
        texts(keys@) == untranslated_keys(doc@.strings, language@),
{
    let strings = &doc.strings;
    let ghost all = strings_view(*strings);
    let n = strings.len();
    let mut keys: Vec<String> = Vec::new();
    let mut i: usize = 0;
    assert(texts(keys@) =~= untranslated_keys(all.take(0), language@));
    while i < n
        invariant
            strings.wf(),
            all == strings_view(*strings),
            n == strings.values().len(),
            i <= n,
            texts(keys@) == untranslated_keys(all.take(i as int), language@),
        decreases n - i,
    {
        let ghost before = texts(keys@);
        if !entry_is_translated(strings.value_at(i), language) {
            let key = strings.key_at(i).clone();
            keys.push(key);
            assert(texts(keys@) =~= before.push(strings.keys()[i as int]));
        }
        i += 1;
        proof {
            let next = all.take(i as int);
            assert(next.drop_last() =~= all.take(i - 1));
            assert(next.last() == all[i - 1]);
        }
    }
    assert(all.take(n as int) =~= all);
    keys
}

/// For each language of the catalog that has untranslated keys, in the
/// order of `str`, the language and those keys in the order of the catalog.
/// A key is untranslated in a language where the entry has no localization
/// for it, or one without a value or with an empty value.
pub fn list_untranslated(doc: &XcStringsFile) -> (r: Vec<UntranslatedKeys>)
    ensures
        is_untranslated_report(untranslated_view(r@), doc@),
{
    let languages = language_list(doc);
    let ghost all = texts(languages@);
    let mut out: Vec<UntranslatedKeys> = Vec::new();
    let mut i: usize = 0;
    assert(untranslated_view(out@) =~= untranslated_report(all.take(0), doc@.strings));
    while i < languages.len()
        invariant
            all == texts(languages@),
            is_language_list(all, doc@),
            i <= languages@.len(),
            untranslated_view(out@) == untranslated_report(all.take(i as int), doc@.strings),
        decreases languages@.len() - i,
    {
        let ghost before = untranslated_view(out@);
        let keys = keys_without(doc, languages[i].as_str());
        if keys.len() > 0 {
            let language = languages[i].clone();
            out.push(UntranslatedKeys { language, keys });
            assert(untranslated_view(out@) =~= before.push((all[i as int], texts(keys@))));
        }
        i += 1;
        proof {
            let next = all.take(i as int);
            assert(next.drop_last() =~= all.take(i - 1));
            assert(next.last() == all[i - 1]);
        }
    }
    assert(all.take(languages@.len() as int) =~= all);
    out
}

fn count_translatable(doc: &XcStringsFile) -> (total: usize)
    ensures
        total == translatable_count(doc@.strings),
{
    let strings = &doc.strings;
    let ghost all = strings_view(*strings);
    let n = strings.len();
    let mut total: usize = 0;
    let mut i: usize = 0;
    while i < n
        invariant
            strings.wf(),
            all == strings_view(*strings),
            n == strings.values().len(),
            i <= n,
            total <= i,
            total == translatable_count(all.take(i as int)),
        decreases n - i,
    {
        let translatable = match strings.value_at(i).should_translate {
            Some(b) => b,
            None => true,
        };
        if translatable {
            total += 1;
        }
        i += 1;
        proof {
            let next = all.take(i as int);
            assert(next.drop_last() =~= all.take(i - 1));
            assert(next.last() == all[i - 1]);
        }
    }
    assert(all.take(n as int) =~= all);
    total
}

fn count_translated(doc: &XcStringsFile, language: &str) -> (count: usize)
    ensures
        count == translated_count(doc@.strings, language@),
{
    let strings = &doc.strings;
    let ghost all = strings_view(*strings);
    let n = strings.len();
    let mut count: usize = 0;
    let mut i: usize = 0;
    while i < n
        invariant
            strings.wf(),
            all == strings_view(*strings),
            n == strings.values().len(),
            i <= n,
            count <= i,
            count == translated_count(all.take(i as int), language@),
        decreases n - i,
    {
        let entry = strings.value_at(i);
        let translatable = match entry.should_translate {
            Some(b) => b,
            None => true,
        };
        if translatable && entry_is_translated(entry, language) {
            count += 1;
        }
        i += 1;
        proof {
            let next = all.take(i as int);
            assert(next.drop_last() =~= all.take(i - 1));
            assert(next.last() == all[i - 1]);
        }
    }
    assert(all.take(n as int) =~= all);
    count
}

/// For each language of the catalog, in the order of `str`: how many of the
/// entries that are to be translated have a value in the language, and how
/// many entries are to be translated. Nothing where no entry is to be translated.
pub fn translation_progress(doc: &XcStringsFile) -> (r: Vec<LanguageProgress>)
    ensures
        is_progress_report(progress_view(r@), doc@),
{
    let languages = language_list(doc);
    let ghost all = texts(languages@);
    let total = count_translatable(doc);
    let mut out: Vec<LanguageProgress> = Vec::new();
    assert(is_language_list(all, doc@));
    if total == 0 {
        assert(progress_view(out@) =~= progress_report(all, doc@.strings));
        return out;
    }
    let mut i: usize = 0;
    assert(progress_view(out@) =~= progress_rows(all, doc@.strings, 0));
    while i < languages.len()
        invariant
            all == texts(languages@),
            total == translatable_count(doc@.strings),
            i <= languages@.len(),
            progress_view(out@) == progress_rows(all, doc@.strings, i as int),
        decreases languages@.len() - i,
    {
        let translated = count_translated(doc, languages[i].as_str());
        let language = languages[i].clone();
        let ghost before = progress_view(out@);
        out.push(LanguageProgress { language, translated, total });
        assert(progress_view(out@) =~= before.push(
            (all[i as int], translated as nat, total as nat),
        ));
        i += 1;
        assert(progress_view(out@) =~= progress_rows(all, doc@.strings, i as int));
    }
    assert(progress_view(out@) =~= progress_report(all, doc@.strings));
    out
}

} // verus!
