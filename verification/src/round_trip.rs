use crate::codec::{
    arg_num_member, decode_cases, decode_catalog, decode_entries, decode_entry, decode_loc,
    decode_raw, decode_sub, decode_subs, decode_unit, decode_variations, encode_cases,
    encode_catalog, encode_entries, encode_entry, encode_format_version, encode_loc,
    encode_members, encode_sub, encode_subs, encode_unit, encode_variations, opt_member,
    should_translate_member, text_json, text_member, unit_member,
};
use crate::json::{JsonModel, member};
use crate::laws::{
    lemma_lookup_at, lemma_normalize_cases_keys, lemma_normalize_entries_keys,
    lemma_normalized_case_origin, lemma_normalized_entry_origin, lemma_normalized_sub_origin,
    lemma_take_out_lacks,
};
use crate::normalize::{
    VariationContext, device_excluded, device_selector, drop_device, drop_empty_selectors,
    has_case, nested_context, normalize_cases, normalize_entries, normalize_entry, normalize_loc,
    normalize_selectors, normalize_sub, normalize_subs, normalize_variations, other_key,
};
use crate::normalize_laws::{lemma_filter_member, lemma_selectors_index};
use crate::model::{CasesModel, CatalogModel, EntryModel, LocModel, SubModel, UnitModel, VariationsModel};
use crate::normalize::normalize_catalog;
use crate::ordered_map::{lemma_push_no_duplicates, lemma_remove_no_duplicates};
use crate::parse::parsed_json;
use crate::store::{loaded, serialized};
use crate::update::{keys_of, lookup, put, take_out};
use crate::valid::{
    cases_keys_unique, catalog_keys_unique, entries_keys_unique, keys_unique, loc_keys_unique,
    sub_keys_unique, subs_keys_unique, variations_keys_unique,
};
use vstd::prelude::*;

verus! {

/// The names of the members of the file format differ from one another.
pub proof fn lemma_names_differ()
    ensures
        "state"@ != "value"@,
        "stringUnit"@ != "substitutions"@,
        "stringUnit"@ != "variations"@,
        "substitutions"@ != "variations"@,
        "argNum"@ != "formatSpecifier"@,
        "argNum"@ != "stringUnit"@,
        "argNum"@ != "variations"@,
        "formatSpecifier"@ != "stringUnit"@,
        "formatSpecifier"@ != "variations"@,
        "comment"@ != "extractionState"@,
        "comment"@ != "localizations"@,
        "comment"@ != "shouldTranslate"@,
        "extractionState"@ != "localizations"@,
        "extractionState"@ != "shouldTranslate"@,
        "localizations"@ != "shouldTranslate"@,
        "version"@ != "formatVersion"@,
        "version"@ != "sourceLanguage"@,
        "version"@ != "strings"@,
        "formatVersion"@ != "sourceLanguage"@,
        "formatVersion"@ != "strings"@,
        "sourceLanguage"@ != "strings"@,
{
    reveal_strlit("state");
    reveal_strlit("value");
    reveal_strlit("stringUnit");
    reveal_strlit("substitutions");
    reveal_strlit("variations");
    reveal_strlit("argNum");
    reveal_strlit("formatSpecifier");
    reveal_strlit("comment");
    reveal_strlit("extractionState");
    reveal_strlit("localizations");
    reveal_strlit("shouldTranslate");
    reveal_strlit("version");
    reveal_strlit("formatVersion");
    reveal_strlit("sourceLanguage");
    reveal_strlit("strings");
    assert("state"@[0] == 's' && "value"@[0] == 'v');
    assert("stringUnit"@[1] == 't' && "substitutions"@[1] == 'u');
    assert("stringUnit"@[0] == 's' && "variations"@[0] == 'v' && "substitutions"@[0] == 's');
    assert("argNum"@[0] == 'a' && "formatSpecifier"@[0] == 'f');
    assert("comment"@[0] == 'c' && "extractionState"@[0] == 'e' && "localizations"@[0] == 'l'
        && "shouldTranslate"@[0] == 's');
    assert("version"@[0] == 'v' && "formatVersion"@[0] == 'f' && "sourceLanguage"@[0] == 's'
        && "strings"@[0] == 's');
    assert("sourceLanguage"@[1] == 'o' && "strings"@[1] == 't');
}

/// What is looked up in two lists of members joined is found in the first,
/// or else in the second.
pub proof fn lemma_member_concat(
    a: Seq<(Seq<char>, JsonModel)>,
    b: Seq<(Seq<char>, JsonModel)>,
    name: Seq<char>,
)
    ensures
        member(a + b, name) == (match member(a, name) {
            Some(j) => Some(j),
            None => member(b, name),
        }),
    decreases a.len(),
{
    if a.len() == 0 {
        assert(a + b =~= b);
    } else {
        assert((a + b)[0] == a[0]);
        assert((a + b).drop_first() =~= a.drop_first() + b);
        lemma_member_concat(a.drop_first(), b, name);
    }
}

/// What is looked up in a list of at most one member.
pub proof fn lemma_member_opt(given: Seq<char>, present: bool, j: JsonModel, name: Seq<char>)
    ensures
        member(opt_member(given, present, j), name) == (if present && given == name {
            Some(j)
        } else {
            None
        }),
{
    let s = opt_member(given, present, j);
    if present {
        assert(s[0] == (given, j));
        assert(s.drop_first() =~= Seq::empty());
        assert(member(s.drop_first(), name) is None);
    }
}

/// The optional members of the file format are lists of at most one member.
pub proof fn lemma_members_are_optional(
    u: Option<UnitModel>,
    n: Option<int>,
    name: Seq<char>,
    t: Option<Seq<char>>,
    b: Option<bool>,
)
    ensures
        unit_member(u) == opt_member(
            "stringUnit"@,
            u is Some,
            match u {
                Some(x) => encode_unit(x),
                None => JsonModel::Null,
            },
        ),
        arg_num_member(n) == opt_member(
            "argNum"@,
            n is Some,
            match n {
                Some(i) => JsonModel::Number(crate::json::NumberModel::Integer(i)),
                None => JsonModel::Null,
            },
        ),
        text_member(name, t) == opt_member(
            name,
            t is Some,
            match t {
                Some(s) => JsonModel::String(s),
                None => JsonModel::Null,
            },
        ),
        should_translate_member(b) == opt_member(
            "shouldTranslate"@,
            b is Some,
            match b {
                Some(x) => JsonModel::Bool(x),
                None => JsonModel::Null,
            },
        ),
{
}

/// A string unit that is written is read back as it was.
pub proof fn lemma_unit_round_trip(u: Option<UnitModel>, rest: Seq<(Seq<char>, JsonModel)>)
    requires
        member(rest, "stringUnit"@) is None,
    ensures
        decode_unit(member(unit_member(u) + rest, "stringUnit"@)) == Some(u),
{
    lemma_names_differ();
    lemma_member_concat(unit_member(u), rest, "stringUnit"@);
    lemma_members_are_optional(u, None, Seq::empty(), None, None);
    match u {
        Some(x) => {
            lemma_member_opt("stringUnit"@, true, encode_unit(x), "stringUnit"@);
            let members = seq![("state"@, text_json(x.state)), ("value"@, text_json(x.value))];
            let first = seq![("state"@, text_json(x.state))];
            let second = seq![("value"@, text_json(x.value))];
            assert(members =~= first + second);
            assert(first == opt_member("state"@, true, text_json(x.state)));
            assert(second == opt_member("value"@, true, text_json(x.value)));
            lemma_member_concat(first, second, "state"@);
            lemma_member_concat(first, second, "value"@);
            lemma_member_opt("state"@, true, text_json(x.state), "state"@);
            lemma_member_opt("state"@, true, text_json(x.state), "value"@);
            lemma_member_opt("value"@, true, text_json(x.value), "value"@);
        },
        None => {
            lemma_member_opt("stringUnit"@, false, JsonModel::Null, "stringUnit"@);
        },
    }
}

/// Appending an entry under a key that an ordered mapping lacks is storing it.
pub proof fn lemma_put_new<A>(s: Seq<(Seq<char>, A)>, key: Seq<char>, a: A)
    requires
        !keys_of(s).contains(key),
    ensures
        put(s, key, a) == s.push((key, a)),
{
}

/// The front of an ordered mapping without duplicate keys has none, and lacks the last key.
pub proof fn lemma_front_unique<A>(s: Seq<(Seq<char>, A)>)
    requires
        keys_unique(s),
        s.len() > 0,
    ensures
        keys_unique(s.drop_last()),
        !keys_of(s.drop_last()).contains(s.last().0),
{
    let front = s.drop_last();
    assert forall|a: int, b: int|
        0 <= a < keys_of(front).len() && 0 <= b < keys_of(front).len() && a != b implies keys_of(
        front,
    )[a] != keys_of(front)[b] by {
        assert(keys_of(front)[a] == keys_of(s)[a]);
        assert(keys_of(front)[b] == keys_of(s)[b]);
    }
    if keys_of(front).contains(s.last().0) {
        let a = choose|a: int| 0 <= a < keys_of(front).len() && keys_of(front)[a] == s.last().0;
        assert(keys_of(s)[a] == s.last().0);
        assert(keys_of(s)[s.len() - 1] == s.last().0);
    }
}

/// A localization that is written is read back as it was.
pub proof fn lemma_loc_round_trip(l: LocModel)
    requires
        loc_keys_unique(l),
    ensures
        decode_loc(encode_loc(l)) == Some(l),
    decreases l, 0nat,
{
    lemma_names_differ();
    let unit = unit_member(l.unit);
    let subs = opt_member(
        "substitutions"@,
        l.substitutions.len() > 0,
        JsonModel::Object(encode_subs(l.substitutions)),
    );
    let vars = opt_member(
        "variations"@,
        l.variations.len() > 0,
        JsonModel::Object(encode_variations(l.variations)),
    );
    let members = unit + subs + vars;
    lemma_members_are_optional(l.unit, None, Seq::empty(), None, None);
    let unit_json = match l.unit {
        Some(x) => encode_unit(x),
        None => JsonModel::Null,
    };
    let subs_json = JsonModel::Object(encode_subs(l.substitutions));
    let vars_json = JsonModel::Object(encode_variations(l.variations));
    lemma_member_concat(unit + subs, vars, "stringUnit"@);
    lemma_member_concat(unit + subs, vars, "substitutions"@);
    lemma_member_concat(unit + subs, vars, "variations"@);
    lemma_member_concat(unit, subs, "stringUnit"@);
    lemma_member_concat(unit, subs, "substitutions"@);
    lemma_member_concat(unit, subs, "variations"@);
    lemma_member_opt("stringUnit"@, l.unit is Some, unit_json, "stringUnit"@);
    lemma_member_opt("stringUnit"@, l.unit is Some, unit_json, "substitutions"@);
    lemma_member_opt("stringUnit"@, l.unit is Some, unit_json, "variations"@);
    lemma_member_opt("substitutions"@, l.substitutions.len() > 0, subs_json, "stringUnit"@);
    lemma_member_opt("substitutions"@, l.substitutions.len() > 0, subs_json, "substitutions"@);
    lemma_member_opt("substitutions"@, l.substitutions.len() > 0, subs_json, "variations"@);
    lemma_member_opt("variations"@, l.variations.len() > 0, vars_json, "stringUnit"@);
    lemma_member_opt("variations"@, l.variations.len() > 0, vars_json, "substitutions"@);
    lemma_member_opt("variations"@, l.variations.len() > 0, vars_json, "variations"@);
    assert(unit + (subs + vars) =~= members);
    lemma_member_concat(subs, vars, "stringUnit"@);
    lemma_unit_round_trip(l.unit, subs + vars);
    lemma_subs_round_trip(l.substitutions);
    lemma_variations_round_trip(l.variations);
    if l.substitutions.len() == 0 {
        assert(l.substitutions =~= Seq::empty());
    }
    if l.variations.len() == 0 {
        assert(l.variations =~= Seq::empty());
    }
}

/// A substitution that is written is read back as it was.
pub proof fn lemma_sub_round_trip(s: SubModel)
    requires
        sub_keys_unique(s),
    ensures
        decode_sub(encode_sub(s)) == Some(s),
    decreases s, 0nat,
{
    lemma_names_differ();
    let number = arg_num_member(s.arg_num);
    let format = text_member("formatSpecifier"@, s.format_specifier);
    let unit = unit_member(s.unit);
    let vars = opt_member(
        "variations"@,
        s.variations.len() > 0,
        JsonModel::Object(encode_variations(s.variations)),
    );
    let members = number + format + unit + vars;
    lemma_members_are_optional(s.unit, s.arg_num, "formatSpecifier"@, s.format_specifier, None);
    let number_json = match s.arg_num {
        Some(i) => JsonModel::Number(crate::json::NumberModel::Integer(i)),
        None => JsonModel::Null,
    };
    let format_json = match s.format_specifier {
        Some(t) => JsonModel::String(t),
        None => JsonModel::Null,
    };
    let unit_json = match s.unit {
        Some(x) => encode_unit(x),
        None => JsonModel::Null,
    };
    let vars_json = JsonModel::Object(encode_variations(s.variations));
    assert forall|name: Seq<char>|
        name == "argNum"@ || name == "formatSpecifier"@ || name == "stringUnit"@ || name
            == "variations"@ implies #[trigger] member(members, name) == (if name == "argNum"@ {
        if s.arg_num is Some {
            Some(number_json)
        } else {
            None
        }
    } else if name == "formatSpecifier"@ {
        if s.format_specifier is Some {
            Some(format_json)
        } else {
            None
        }
    } else if name == "stringUnit"@ {
        if s.unit is Some {
            Some(unit_json)
        } else {
            None
        }
    } else {
        if s.variations.len() > 0 {
            Some(vars_json)
        } else {
            None
        }
    }) by {
        lemma_member_concat(number + format + unit, vars, name);
        lemma_member_concat(number + format, unit, name);
        lemma_member_concat(number, format, name);
        lemma_member_opt("argNum"@, s.arg_num is Some, number_json, name);
        lemma_member_opt("formatSpecifier"@, s.format_specifier is Some, format_json, name);
        lemma_member_opt("stringUnit"@, s.unit is Some, unit_json, name);
        lemma_member_opt("variations"@, s.variations.len() > 0, vars_json, name);
    }
    assert(member(members, "argNum"@) == if s.arg_num is Some {
        Some(number_json)
    } else {
        None::<JsonModel>
    });
    assert(member(members, "formatSpecifier"@) == if s.format_specifier is Some {
        Some(format_json)
    } else {
        None::<JsonModel>
    });
    assert(member(members, "stringUnit"@) == if s.unit is Some {
        Some(unit_json)
    } else {
        None::<JsonModel>
    });
    assert(member(members, "variations"@) == if s.variations.len() > 0 {
        Some(vars_json)
    } else {
        None::<JsonModel>
    });
    lemma_unit_round_trip(s.unit, Seq::empty());
    assert(unit_member(s.unit) + Seq::<(Seq<char>, JsonModel)>::empty() =~= unit_member(s.unit));
    lemma_member_opt("stringUnit"@, s.unit is Some, unit_json, "stringUnit"@);
    lemma_variations_round_trip(s.variations);
    if s.variations.len() == 0 {
        assert(s.variations =~= Seq::empty());
    }
}

/// Localizations that are written are read back as they were.
pub proof fn lemma_cases_round_trip(cases: CasesModel)
    requires
        cases_keys_unique(cases),
    ensures
        decode_cases(encode_cases(cases)) == Some(cases),
    decreases cases, 1nat,
{
    if cases.len() == 0 {
        assert(cases =~= Seq::empty());
    } else {
        let front = cases.drop_last();
        lemma_front_unique(cases);
        assert forall|i: int| 0 <= i < front.len() implies loc_keys_unique(
            (#[trigger] front[i]).1,
        ) by {
            assert(front[i] == cases[i]);
        }
        lemma_cases_round_trip(front);
        assert(cases[cases.len() - 1] == cases.last());
        lemma_loc_round_trip(cases.last().1);
        assert(encode_cases(cases).drop_last() =~= encode_cases(front));
        assert(encode_cases(cases).last() == (cases.last().0, encode_loc(cases.last().1)));
        lemma_put_new(front, cases.last().0, cases.last().1);
        assert(front.push(cases.last()) =~= cases);
    }
}

/// Variation selectors that are written are read back as they were.
pub proof fn lemma_variations_round_trip(vars: VariationsModel)
    requires
        variations_keys_unique(vars),
    ensures
        decode_variations(encode_variations(vars)) == Some(vars),
    decreases vars, 2nat,
{
    if vars.len() == 0 {
        assert(vars =~= Seq::empty());
    } else {
        let front = vars.drop_last();
        lemma_front_unique(vars);
        assert forall|i: int| 0 <= i < front.len() implies cases_keys_unique(
            (#[trigger] front[i]).1,
        ) by {
            assert(front[i] == vars[i]);
        }
        lemma_variations_round_trip(front);
        assert(vars[vars.len() - 1] == vars.last());
        lemma_cases_round_trip(vars.last().1);
        assert(encode_variations(vars).drop_last() =~= encode_variations(front));
        assert(encode_variations(vars).last() == (
            vars.last().0,
            JsonModel::Object(encode_cases(vars.last().1)),
        ));
        lemma_put_new(front, vars.last().0, vars.last().1);
        assert(front.push(vars.last()) =~= vars);
    }
}

/// Substitutions that are written are read back as they were.
pub proof fn lemma_subs_round_trip(subs: Seq<(Seq<char>, SubModel)>)
    requires
        subs_keys_unique(subs),
    ensures
        decode_subs(encode_subs(subs)) == Some(subs),
    decreases subs, 1nat,
{
    if subs.len() == 0 {
        assert(subs =~= Seq::empty());
    } else {
        let front = subs.drop_last();
        lemma_front_unique(subs);
        assert forall|i: int| 0 <= i < front.len() implies sub_keys_unique(
            (#[trigger] front[i]).1,
        ) by {
            assert(front[i] == subs[i]);
        }
        lemma_subs_round_trip(front);
        assert(subs[subs.len() - 1] == subs.last());
        lemma_sub_round_trip(subs.last().1);
        assert(encode_subs(subs).drop_last() =~= encode_subs(front));
        assert(encode_subs(subs).last() == (subs.last().0, encode_sub(subs.last().1)));
        lemma_put_new(front, subs.last().0, subs.last().1);
        assert(front.push(subs.last()) =~= subs);
    }
}

/// An entry that is written is read back as it was.
pub proof fn lemma_entry_round_trip(e: EntryModel)
    requires
        cases_keys_unique(e.localizations),
    ensures
        decode_entry(encode_entry(e)) == Some(e),
{
    lemma_names_differ();
    let comment = text_member("comment"@, e.comment);
    let extraction = text_member("extractionState"@, e.extraction_state);
    let locs_json = JsonModel::Object(encode_cases(e.localizations));
    let locs = opt_member("localizations"@, e.localizations.len() > 0, locs_json);
    let mark = should_translate_member(e.should_translate);
    let members = comment + extraction + locs + mark;
    lemma_members_are_optional(None, None, "comment"@, e.comment, e.should_translate);
    lemma_members_are_optional(None, None, "extractionState"@, e.extraction_state, None);
    let comment_json = match e.comment {
        Some(t) => JsonModel::String(t),
        None => JsonModel::Null,
    };
    let extraction_json = match e.extraction_state {
        Some(t) => JsonModel::String(t),
        None => JsonModel::Null,
    };
    let mark_json = match e.should_translate {
        Some(x) => JsonModel::Bool(x),
        None => JsonModel::Null,
    };
    assert forall|name: Seq<char>|
        name == "comment"@ || name == "extractionState"@ || name == "localizations"@ || name
            == "shouldTranslate"@ implies #[trigger] member(members, name) == (if name
        == "comment"@ {
        if e.comment is Some {
            Some(comment_json)
        } else {
            None
        }
    } else if name == "extractionState"@ {
        if e.extraction_state is Some {
            Some(extraction_json)
        } else {
            None
        }
    } else if name == "localizations"@ {
        if e.localizations.len() > 0 {
            Some(locs_json)
        } else {
            None
        }
    } else {
        if e.should_translate is Some {
            Some(mark_json)
        } else {
            None
        }
    }) by {
        lemma_member_concat(comment + extraction + locs, mark, name);
        lemma_member_concat(comment + extraction, locs, name);
        lemma_member_concat(comment, extraction, name);
        lemma_member_opt("comment"@, e.comment is Some, comment_json, name);
        lemma_member_opt("extractionState"@, e.extraction_state is Some, extraction_json, name);
        lemma_member_opt("localizations"@, e.localizations.len() > 0, locs_json, name);
        lemma_member_opt("shouldTranslate"@, e.should_translate is Some, mark_json, name);
    }
    assert(member(members, "comment"@) == if e.comment is Some {
        Some(comment_json)
    } else {
        None::<JsonModel>
    });
    assert(member(members, "extractionState"@) == if e.extraction_state is Some {
        Some(extraction_json)
    } else {
        None::<JsonModel>
    });
    assert(member(members, "localizations"@) == if e.localizations.len() > 0 {
        Some(locs_json)
    } else {
        None::<JsonModel>
    });
    assert(member(members, "shouldTranslate"@) == if e.should_translate is Some {
        Some(mark_json)
    } else {
        None::<JsonModel>
    });
    lemma_cases_round_trip(e.localizations);
    if e.localizations.len() == 0 {
        assert(e.localizations =~= Seq::empty());
    }
}

/// Entries that are written are read back as they were.
pub proof fn lemma_entries_round_trip(strings: Seq<(Seq<char>, EntryModel)>)
    requires
        entries_keys_unique(strings),
    ensures
        decode_entries(encode_entries(strings)) == Some(strings),
    decreases strings.len(),
{
    if strings.len() == 0 {
        assert(strings =~= Seq::empty());
        assert(encode_entries(strings) =~= Seq::empty());
    } else {
        let front = strings.drop_last();
        lemma_front_unique(strings);
        assert forall|i: int| 0 <= i < front.len() implies cases_keys_unique(
            (#[trigger] front[i]).1.localizations,
        ) by {
            assert(front[i] == strings[i]);
        }
        lemma_entries_round_trip(front);
        assert(strings[strings.len() - 1] == strings.last());
        lemma_entry_round_trip(strings.last().1);
        assert(encode_entries(strings).drop_last() =~= encode_entries(front));
        assert(encode_entries(strings).last() == (
            strings.last().0,
            encode_entry(strings.last().1),
        ));
        lemma_put_new(front, strings.last().0, strings.last().1);
        assert(front.push(strings.last()) =~= strings);
    }
}

/// Storing under a key keeps an ordered mapping free of duplicate keys,
/// finds what was stored under the key, and leaves the other keys as they were.
pub proof fn lemma_put<A>(s: Seq<(Seq<char>, A)>, key: Seq<char>, a: A, other: Seq<char>)
    requires
        keys_unique(s),
    ensures
        keys_unique(put(s, key, a)),
        lookup(put(s, key, a), key) == Some(a),
        other != key ==> lookup(put(s, key, a), other) == lookup(s, other),
{
    let t = put(s, key, a);
    if keys_of(s).contains(key) {
        let i = keys_of(s).index_of(key);
        assert(keys_of(s)[i] == key);
        assert(keys_of(t) =~= keys_of(s));
        assert(t[i] == (key, a));
        lemma_lookup_at(t, i);
        if other != key && keys_of(s).contains(other) {
            let j = keys_of(s).index_of(other);
            assert(keys_of(s)[j] == other);
            assert(t[j] == s[j]);
        }
    } else {
        assert(keys_of(t) =~= keys_of(s).push(key));
        lemma_push_no_duplicates(keys_of(s), key);
        assert(t[s.len() as int] == (key, a));
        lemma_lookup_at(t, s.len() as int);
        if other != key {
            if keys_of(s).contains(other) {
                let j = keys_of(s).index_of(other);
                assert(keys_of(s)[j] == other);
                assert(t[j] == s[j]);
                lemma_lookup_at(t, j);
                lemma_lookup_at(s, j);
            } else {
                if keys_of(t).contains(other) {
                    let j = choose|j: int| 0 <= j < keys_of(t).len() && keys_of(t)[j] == other;
                    assert(keys_of(s)[j] == other);
                }
            }
        }
    }
}

/// Taking a key out keeps an ordered mapping free of duplicate keys, leaves
/// nothing under the key, and leaves the other keys as they were.
pub proof fn lemma_take_out<A>(s: Seq<(Seq<char>, A)>, key: Seq<char>, other: Seq<char>)
    requires
        keys_unique(s),
    ensures
        keys_unique(take_out(s, key)),
        lookup(take_out(s, key), key) is None,
        other != key ==> lookup(take_out(s, key), other) == lookup(s, other),
{
    let t = take_out(s, key);
    lemma_take_out_lacks(s, key);
    if keys_of(s).contains(key) {
        let i = keys_of(s).index_of(key);
        assert(keys_of(s)[i] == key);
        assert(keys_of(t) =~= keys_of(s).remove(i));
        lemma_remove_no_duplicates(keys_of(s), i);
        if other != key {
            if keys_of(s).contains(other) {
                let j = keys_of(s).index_of(other);
                assert(keys_of(s)[j] == other);
                let j2 = if j < i { j } else { j - 1 };
                assert(t[j2] == s[j]);
                lemma_lookup_at(t, j2);
                lemma_lookup_at(s, j);
            } else {
                if keys_of(t).contains(other) {
                    let j = choose|j: int| 0 <= j < keys_of(t).len() && keys_of(t)[j] == other;
                    let j2 = if j < i { j } else { j + 1 };
                    assert(keys_of(s)[j2] == other);
                }
            }
        }
    }
}

/// Storing under a key what stands under it changes nothing.
pub proof fn lemma_put_same<A>(s: Seq<(Seq<char>, A)>, key: Seq<char>, a: A)
    requires
        lookup(s, key) == Some(a),
    ensures
        put(s, key, a) == s,
{
    let i = keys_of(s).index_of(key);
    assert(keys_of(s)[i] == key);
    assert(put(s, key, a) =~= s);
}

/// Top-level members without duplicate names are read as they stand.
pub proof fn lemma_raw_round_trip(members: Seq<(Seq<char>, JsonModel)>)
    requires
        keys_unique(members),
    ensures
        decode_raw(members) == members,
    decreases members.len(),
{
    if members.len() == 0 {
        assert(members =~= Seq::empty());
    } else {
        lemma_front_unique(members);
        lemma_raw_round_trip(members.drop_last());
        lemma_put_new(members.drop_last(), members.last().0, members.last().1);
        assert(members.drop_last().push(members.last()) =~= members);
    }
}

/// Round trip of the document: a catalog that is written as a JSON document
/// and read back has the entries, the version, the format version and the
/// source language that it had, and is written as the same document again.
pub proof fn lemma_document_round_trip(c: CatalogModel)
    requires
        catalog_keys_unique(c),
    ensures
        decode_catalog(encode_catalog(c)) is Some,
        decode_catalog(encode_catalog(c))->0.strings == c.strings,
        decode_catalog(encode_catalog(c))->0.version == c.version,
        decode_catalog(encode_catalog(c))->0.format_version == c.format_version,
        decode_catalog(encode_catalog(c))->0.source_language == c.source_language,
        encode_catalog(decode_catalog(encode_catalog(c))->0) == encode_catalog(c),
{
    lemma_names_differ();
    let version_json = JsonModel::String(c.version);
    let language_json = JsonModel::String(c.source_language);
    let strings_json = JsonModel::Object(encode_entries(c.strings));
    let r1 = put(c.raw, "version"@, version_json);
    let r2 = match c.format_version {
        Some(v) => put(r1, "formatVersion"@, encode_format_version(v)),
        None => take_out(r1, "formatVersion"@),
    };
    let r3 = put(r2, "sourceLanguage"@, language_json);
    let r4 = put(r3, "strings"@, strings_json);
    assert(r4 == encode_members(c));
    // What stands under each of the four names in what is written.
    lemma_put(c.raw, "version"@, version_json, "version"@);
    match c.format_version {
        Some(v) => {
            lemma_put(r1, "formatVersion"@, encode_format_version(v), "version"@);
        },
        None => {
            lemma_take_out(r1, "formatVersion"@, "version"@);
        },
    }
    lemma_put(r2, "sourceLanguage"@, language_json, "version"@);
    lemma_put(r2, "sourceLanguage"@, language_json, "formatVersion"@);
    lemma_put(r3, "strings"@, strings_json, "version"@);
    lemma_put(r3, "strings"@, strings_json, "formatVersion"@);
    lemma_put(r3, "strings"@, strings_json, "sourceLanguage"@);
    assert(lookup(r4, "version"@) == Some(version_json));
    assert(lookup(r4, "sourceLanguage"@) == Some(language_json));
    assert(lookup(r4, "strings"@) == Some(strings_json));
    assert(lookup(r4, "formatVersion"@) == match c.format_version {
        Some(v) => Some(encode_format_version(v)),
        None => None,
    });
    // Reading it back.
    lemma_raw_round_trip(r4);
    lemma_entries_round_trip(c.strings);
    let d = decode_catalog(encode_catalog(c))->0;
    assert(d.raw == r4);
    assert(d.strings == c.strings);
    // Writing it again.
    lemma_put_same(r4, "version"@, version_json);
    match c.format_version {
        Some(v) => {
            lemma_put_same(r4, "formatVersion"@, encode_format_version(v));
        },
        None => {},
    }
    lemma_put_same(r4, "sourceLanguage"@, language_json);
    lemma_put_same(r4, "strings"@, strings_json);
    assert(encode_members(d) == r4);
}

/// A filter keeps an ordered mapping free of duplicate keys.
pub proof fn lemma_filter_keys_unique<A>(s: Seq<(Seq<char>, A)>, pred: spec_fn((Seq<char>, A)) -> bool)
    requires
        keys_unique(s),
    ensures
        keys_unique(s.filter(pred)),
    decreases s.len(),
{
    reveal(Seq::filter);
    if s.len() > 0 {
        let front = s.drop_last();
        lemma_front_unique(s);
        lemma_filter_keys_unique(front, pred);
        let kept = front.filter(pred);
        if pred(s.last()) {
            let k = s.last().0;
            if keys_of(kept).contains(k) {
                let j = choose|j: int| 0 <= j < keys_of(kept).len() && keys_of(kept)[j] == k;
                lemma_filter_member(front, pred, j);
                let a = choose|a: int| 0 <= a < front.len() && front[a] == kept[j];
                assert(keys_of(front)[a] == k);
            }
            assert(keys_of(kept.push(s.last())) =~= keys_of(kept).push(k));
            lemma_push_no_duplicates(keys_of(kept), k);
        }
    }
}

/// Normalizing substitutions brings no name twice.
pub proof fn lemma_normalize_subs_keys(subs: Seq<(Seq<char>, SubModel)>)
    requires
        keys_unique(subs),
    ensures
        keys_unique(normalize_subs(subs)),
    decreases subs.len(),
{
    if subs.len() > 0 {
        let front = subs.drop_last();
        lemma_front_unique(subs);
        lemma_normalize_subs_keys(front);
        let rest = normalize_subs(front);
        let k = subs.last().0;
        if keys_of(rest).contains(k) {
            let j = choose|j: int| 0 <= j < keys_of(rest).len() && keys_of(rest)[j] == k;
            lemma_normalized_sub_origin(front, j);
            let a = choose|a: int|
                0 <= a < front.len() && rest[j] == ((#[trigger] front[a]).0, normalize_sub(front[a].1));
            assert(keys_of(front)[a] == k);
        }
        assert(keys_of(rest.push((k, normalize_sub(subs.last().1)))) =~= keys_of(rest).push(k));
        lemma_push_no_duplicates(keys_of(rest), k);
    }
}

/// Normalizing keeps a localization free of duplicate names at every depth.
pub proof fn lemma_loc_stays_unique(l: LocModel, ctx: VariationContext)
    requires
        loc_keys_unique(l),
    ensures
        loc_keys_unique(normalize_loc(l, ctx)),
    decreases l, 0nat,
{
    lemma_variations_stay_unique(l.variations, ctx);
    lemma_subs_stay_unique(l.substitutions);
}

/// Normalizing keeps substitutions free of duplicate names at every depth.
pub proof fn lemma_subs_stay_unique(subs: Seq<(Seq<char>, SubModel)>)
    requires
        subs_keys_unique(subs),
    ensures
        subs_keys_unique(normalize_subs(subs)),
    decreases subs, 1nat,
{
    lemma_normalize_subs_keys(subs);
    let n = normalize_subs(subs);
    assert forall|j: int| 0 <= j < n.len() implies sub_keys_unique((#[trigger] n[j]).1) by {
        lemma_normalized_sub_origin(subs, j);
        let i = choose|i: int|
            0 <= i < subs.len() && n[j] == ((#[trigger] subs[i]).0, normalize_sub(subs[i].1));
        lemma_variations_stay_unique(subs[i].1.variations, VariationContext::TopLevel);
    }
}

/// Normalizing keeps cases free of duplicate names at every depth.
pub proof fn lemma_cases_stay_unique(cases: CasesModel, ctx: VariationContext)
    requires
        cases_keys_unique(cases),
    ensures
        cases_keys_unique(normalize_cases(cases, ctx)),
    decreases cases, 1nat,
{
    lemma_normalize_cases_keys(cases, ctx);
    let n = normalize_cases(cases, ctx);
    assert forall|j: int| 0 <= j < n.len() implies loc_keys_unique((#[trigger] n[j]).1) by {
        lemma_normalized_case_origin(cases, ctx, j);
        let i = choose|i: int|
            0 <= i < cases.len() && n[j] == ((#[trigger] cases[i]).0, normalize_loc(cases[i].1, ctx));
        lemma_loc_stays_unique(cases[i].1, ctx);
    }
}

/// Normalizing keeps variation selectors free of duplicate names at every depth.
pub proof fn lemma_variations_stay_unique(vars: VariationsModel, ctx: VariationContext)
    requires
        variations_keys_unique(vars),
    ensures
        variations_keys_unique(normalize_variations(vars, ctx)),
    decreases vars, 2nat,
{
    let no_device = other_key::<CasesModel>(device_selector());
    let s = normalize_selectors(vars, ctx);
    let d = drop_device(s, ctx);
    let w = drop_empty_selectors(d);
    lemma_selectors_index(vars, ctx);
    assert(keys_of(s) =~= keys_of(vars));
    lemma_filter_keys_unique(s, no_device);
    lemma_filter_keys_unique(d, has_case());
    assert forall|i: int| 0 <= i < w.len() implies cases_keys_unique((#[trigger] w[i]).1) by {
        lemma_filter_member(d, has_case(), i);
        if device_excluded(s, ctx) {
            let j = choose|j: int| 0 <= j < d.len() && d[j] == w[i];
            lemma_filter_member(s, no_device, j);
        }
        let k = choose|k: int| 0 <= k < s.len() && s[k] == w[i];
        lemma_cases_stay_unique(vars[k].1, nested_context(ctx, vars[k].0));
    }
}

/// Normalizing keeps a catalog free of duplicate names in all its ordered mappings.
pub proof fn lemma_catalog_stays_unique(c: CatalogModel)
    requires
        catalog_keys_unique(c),
    ensures
        catalog_keys_unique(normalize_catalog(c)),
{
    lemma_normalize_entries_keys(c.strings);
    let n = normalize_entries(c.strings);
    assert forall|j: int| 0 <= j < n.len() implies cases_keys_unique(
        (#[trigger] n[j]).1.localizations,
    ) by {
        lemma_normalized_entry_origin(c.strings, j);
        let i = choose|i: int|
            0 <= i < c.strings.len() && n[j] == (
                (#[trigger] c.strings[i]).0,
                normalize_entry(c.strings[i].1),
            );
        lemma_cases_stay_unique(c.strings[i].1.localizations, VariationContext::TopLevel);
    }
}

/// Round trip of the file: where the parser reads back the document that
/// the writer wrote, loading the text of a normalized catalog and writing
/// it without a change reproduces the text.
pub proof fn lemma_reload_reproduces_text(c: CatalogModel)
    requires
        catalog_keys_unique(c),
    ensures
        ({
            let text = serialized(normalize_catalog(c));
            parsed_json(text) == Some(encode_catalog(normalize_catalog(c))) ==> loaded(text)
                is Some && serialized(loaded(text)->0) == text
        }),
{
    let n = normalize_catalog(c);
    lemma_catalog_stays_unique(c);
    crate::normalize_laws::lemma_normalize_idempotent(c);
    lemma_document_round_trip(n);
    let d = decode_catalog(encode_catalog(n))->0;
    assert(normalize_catalog(d) == d);
}

} // verus!
