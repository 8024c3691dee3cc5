use crate::model::{CatalogModel, EntryModel, XcStringEntry, XcStringsFile, strings_view};
use crate::text::{
    lemma_less_irreflexive, lemma_less_total, lemma_less_transitive, less_by, str_equal,
    str_less_by,
};
use crate::update::{keys_of, lemma_cases_keys};
use vstd::prelude::*;
use vstd::string::StringExecFns;

verus! {

/// The characters of each string of a sequence.
pub open spec fn texts(v: Seq<String>) -> Seq<Seq<char>> {
    Seq::new(v.len(), |i: int| v[i]@)
}

/// Each string comes strictly before the next, in the order of strings or in
/// the order of paths.
pub open spec fn strictly_sorted_by(s: Seq<Seq<char>>, by_path: bool) -> bool {
    forall|i: int| 0 <= i < s.len() - 1 ==> less_by(#[trigger] s[i], s[i + 1], by_path)
}

/// Each string comes strictly before the next, in the order of `str`.
pub open spec fn strictly_sorted(s: Seq<Seq<char>>) -> bool {
    strictly_sorted_by(s, false)
}

/// Whether an entry holds a localization for a language.
pub open spec fn entry_has_language(e: EntryModel, language: Seq<char>) -> bool {
    keys_of(e.localizations).contains(language)
}

/// Whether any entry holds a localization for a language.
pub open spec fn language_in_entries(strings: Seq<(Seq<char>, EntryModel)>, language: Seq<char>) -> bool {
    exists|i: int| 0 <= i < strings.len() && entry_has_language((#[trigger] strings[i]).1, language)
}

/// The languages of a catalog: its source language and every language that
/// an entry holds a localization for.
pub open spec fn is_language(c: CatalogModel, language: Seq<char>) -> bool {
    language == c.source_language || language_in_entries(c.strings, language)
}

/// The list of the languages of a catalog: each once, in the order of `str`.
pub open spec fn is_language_list(list: Seq<Seq<char>>, c: CatalogModel) -> bool {
    &&& strictly_sorted(list)
    &&& forall|language: Seq<char>| list.contains(language) <==> is_language(c, language)
}

/// Puts a string at its place in a sorted list, unless the list holds it.
pub(crate) fn insert_sorted(list: &mut Vec<String>, s: &str, by_path: bool)
    requires
        strictly_sorted_by(texts(old(list)@), by_path),
    ensures
        strictly_sorted_by(texts(final(list)@), by_path),
        forall|x: Seq<char>|
            texts(final(list)@).contains(x) <==> (texts(old(list)@).contains(x) || x == s@),
{
    let ghost before = texts(list@);
    let mut k: usize = 0;
    while k < list.len() && str_less_by(list[k].as_str(), s, by_path)
        invariant
            list@ == old(list)@,
            before == texts(list@),
            k <= list@.len(),
            forall|j: int| 0 <= j < k ==> less_by(#[trigger] before[j], s@, by_path),
        decreases list@.len() - k,
    {
        assert(before[k as int] == list@[k as int]@);
        k += 1;
    }
    if k < list.len() && str_equal(list[k].as_str(), s) {
        assert(before[k as int] == s@);
        assert(before.contains(s@));
        return ;
    }
    list.insert(k, String::from_str(s));
    proof {
        let after = texts(list@);
        assert(after =~= before.insert(k as int, s@));
        lemma_less_irreflexive(s@, by_path);
        if k < before.len() {
            assert(before[k as int] == old(list)@[k as int]@);
            lemma_less_total(before[k as int], s@, by_path);
        }
        assert forall|i: int| 0 <= i < after.len() - 1 implies less_by(
            #[trigger] after[i],
            after[i + 1],
            by_path,
        ) by {
            if i + 1 < k {
                assert(after[i] == before[i]);
                assert(after[i + 1] == before[i + 1]);
            } else if i + 1 == k {
                assert(after[i] == before[i]);
            } else if i == k {
                assert(after[i + 1] == before[i]);
            } else {
                assert(after[i] == before[i - 1]);
                assert(after[i + 1] == before[i]);
            }
        }
        assert forall|x: Seq<char>| after.contains(x) <==> (before.contains(x) || x == s@) by {
            if after.contains(x) {
                let i = choose|i: int| 0 <= i < after.len() && after[i] == x;
                if i < k {
                    assert(before[i] == x);
                } else if i > k {
                    assert(before[i - 1] == x);
                }
            }
            if before.contains(x) {
                let i = choose|i: int| 0 <= i < before.len() && before[i] == x;
                if i < k {
                    assert(after[i] == x);
                } else {
                    assert(after[i + 1] == x);
                }
            }
            if x == s@ {
                assert(after[k as int] == x);
            }
        }
    }
}

/// Adds the languages of an entry to a sorted list.
fn collect_entry_languages(list: &mut Vec<String>, entry: &XcStringEntry)
    requires
        strictly_sorted(texts(old(list)@)),
    ensures
        strictly_sorted(texts(final(list)@)),
        forall|x: Seq<char>|
            texts(final(list)@).contains(x) <==> (texts(old(list)@).contains(x)
                || entry_has_language(entry@, x)),
{
    let n = entry.localizations.len();
    let mut j: usize = 0;
    proof {
        lemma_cases_keys(entry.localizations);
    }
    while j < n
        invariant
            entry.localizations.wf(),
            n == entry.localizations.values().len(),
            j <= n,
            strictly_sorted(texts(list@)),
            forall|x: Seq<char>|
                texts(list@).contains(x) <==> (texts(old(list)@).contains(x)
                    || entry.localizations.keys().take(j as int).contains(x)),
        decreases n - j,
    {
        let ghost prev = texts(list@);
        insert_sorted(list, entry.localizations.key_at(j).as_str(), false);
        j += 1;
        proof {
            let keys = entry.localizations.keys();
            let now = keys.take(j as int);
            let was = keys.take(j - 1);
            assert forall|x: Seq<char>|
                texts(list@).contains(x) <==> (texts(old(list)@).contains(x) || now.contains(
                    x,
                )) by {
                if now.contains(x) {
                    let i = choose|i: int| 0 <= i < now.len() && now[i] == x;
                    if i < j - 1 {
                        assert(was[i] == x);
                    }
                }
                if was.contains(x) {
                    let i = choose|i: int| 0 <= i < was.len() && was[i] == x;
                    assert(now[i] == x);
                }
                if x == keys[j - 1] {
                    assert(now[j - 1] == x);
                }
            }
        }
    }
    assert(entry.localizations.keys().take(n as int) =~= entry.localizations.keys());
}

/// The languages of a catalog, each once, in the order of `str`.
pub fn language_list(doc: &XcStringsFile) -> (list: Vec<String>)
    ensures
        is_language_list(texts(list@), doc@),
{
    let mut list: Vec<String> = Vec::new();
    insert_sorted(&mut list, doc.source_language.as_str(), false);
    let n = doc.strings.len();
    let mut i: usize = 0;
    let ghost all = strings_view(doc.strings);
    assert(!language_in_entries(all.take(0), doc.source_language@)) by {
        assert(all.take(0).len() == 0);
    }
    assert forall|x: Seq<char>|
        texts(list@).contains(x) <==> (x == doc.source_language@ || language_in_entries(
            all.take(0),
            x,
        )) by {
        assert(all.take(0).len() == 0);
        assert(!texts(Seq::<String>::empty()).contains(x));
    }
    while i < n
        invariant
            doc.strings.wf(),
            all == strings_view(doc.strings),
            n == doc.strings.values().len(),
            i <= n,
            strictly_sorted(texts(list@)),
            forall|x: Seq<char>|
                texts(list@).contains(x) <==> (x == doc.source_language@ || language_in_entries(
                    all.take(i as int),
                    x,
                )),
        decreases n - i,
    {
        let ghost prev = texts(list@);
        collect_entry_languages(&mut list, doc.strings.value_at(i));
        i += 1;
        proof {
            assert forall|x: Seq<char>|
                texts(list@).contains(x) <==> (x == doc.source_language@ || language_in_entries(
                    all.take(i as int),
                    x,
                )) by {
                let now = all.take(i as int);
                let was = all.take(i - 1);
                if language_in_entries(now, x) {
                    let k = choose|k: int|
                        0 <= k < now.len() && entry_has_language((#[trigger] now[k]).1, x);
                    if k < i - 1 {
                        assert(was[k] == now[k]);
                    } else {
                        assert(now[k].1 == doc.strings.values()[i - 1]@);
                    }
                }
                if language_in_entries(was, x) {
                    let k = choose|k: int|
                        0 <= k < was.len() && entry_has_language((#[trigger] was[k]).1, x);
                    assert(now[k] == was[k]);
                }
                if entry_has_language(doc.strings.values()[i - 1]@, x) {
                    assert(now[i - 1].1 == doc.strings.values()[i - 1]@);
                }
            }
        }
    }
    assert(all.take(n as int) =~= all);
    list
}

/// Two lists of the languages of one catalog are the same list.
pub proof fn lemma_language_list_unique(a: Seq<Seq<char>>, b: Seq<Seq<char>>, c: CatalogModel)
    requires
        is_language_list(a, c),
        is_language_list(b, c),
    ensures
        a == b,
{
    lemma_sorted_lists_equal(a, b, false);
}

/// In a strictly sorted list every string comes before those behind it.
pub proof fn lemma_sorted_ordered(s: Seq<Seq<char>>, i: int, j: int, by_path: bool)
    requires
        strictly_sorted_by(s, by_path),
        0 <= i < j < s.len(),
    ensures
        less_by(s[i], s[j], by_path),
    decreases j - i,
{
    if j > i + 1 {
        lemma_sorted_ordered(s, i, j - 1, by_path);
        lemma_less_transitive(s[i], s[j - 1], s[j], by_path);
    }
}

/// Two strictly sorted lists that hold the same strings are equal.
pub proof fn lemma_sorted_lists_equal(a: Seq<Seq<char>>, b: Seq<Seq<char>>, by_path: bool)
    requires
        strictly_sorted_by(a, by_path),
        strictly_sorted_by(b, by_path),
        forall|x: Seq<char>| a.contains(x) <==> b.contains(x),
    ensures
        a == b,
    decreases a.len(),
{
    if a.len() == 0 {
        if b.len() > 0 {
            assert(b.contains(b[0]));
        }
        assert(a =~= b);
    } else if b.len() == 0 {
        assert(a.contains(a[0]));
    } else {
        // The two heads are the least string of either list.
        assert(a.contains(a[0]));
        assert(b.contains(b[0]));
        let i = choose|i: int| 0 <= i < b.len() && b[i] == a[0];
        let j = choose|j: int| 0 <= j < a.len() && a[j] == b[0];
        if i > 0 {
            lemma_sorted_ordered(b, 0, i, by_path);
        }
        if j > 0 {
            lemma_sorted_ordered(a, 0, j, by_path);
        }
        lemma_less_total(a[0], b[0], by_path);
        assert(a[0] == b[0]);
        let at = a.drop_first();
        let bt = b.drop_first();
        assert forall|x: Seq<char>| at.contains(x) <==> bt.contains(x) by {
            lemma_less_irreflexive(a[0], by_path);
            if at.contains(x) {
                let k = choose|k: int| 0 <= k < at.len() && at[k] == x;
                assert(a[k + 1] == x);
                lemma_sorted_ordered(a, 0, k + 1, by_path);
                assert(a.contains(x));
                let m = choose|m: int| 0 <= m < b.len() && b[m] == x;
                assert(m > 0);
                assert(bt[m - 1] == x);
            }
            if bt.contains(x) {
                let k = choose|k: int| 0 <= k < bt.len() && bt[k] == x;
                assert(b[k + 1] == x);
                lemma_sorted_ordered(b, 0, k + 1, by_path);
                assert(b.contains(x));
                let m = choose|m: int| 0 <= m < a.len() && a[m] == x;
                assert(m > 0);
                assert(at[m - 1] == x);
            }
        }
        assert forall|k: int| 0 <= k < at.len() - 1 implies less_by(
            #[trigger] at[k],
            at[k + 1],
            by_path,
        ) by {
            assert(at[k] == a[k + 1]);
            assert(at[k + 1] == a[k + 2]);
        }
        assert forall|k: int| 0 <= k < bt.len() - 1 implies less_by(
            #[trigger] bt[k],
            bt[k + 1],
            by_path,
        ) by {
            assert(bt[k] == b[k + 1]);
            assert(bt[k + 1] == b[k + 2]);
        }
        lemma_sorted_lists_equal(at, bt, by_path);
        assert(a =~= seq![a[0]] + at);
        assert(b =~= seq![b[0]] + bt);
    }
}

} // verus!
