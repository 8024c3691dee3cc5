use crate::error::StoreError;
use crate::json::{
    JsonModel, JsonNumber, JsonValue, NumberModel, copy_json, member, members_view,
};
use crate::model::{
    Cases, CasesModel, CatalogModel, EntryModel, FormatVersion, FormatVersionModel, LocModel,
    SubModel, UnitModel, Variations, VariationsModel, XcLocalization, XcStringEntry, XcStringUnit,
    XcStringsFile, XcSubstitution, cases_view, loc_view, raw_view,
    strings_view, sub_view, subs_view, text_view, unit_view, variations_view,
};
use crate::normalize::{default_source_language, default_source_language_text, default_version, default_version_text};
use crate::ordered_map::OrderedMap;
use crate::text::str_equal;
use crate::update::{cases_put, keys_of, lookup, put, subs_put, take_out, variations_put};
use crate::value::lemma_prefix_lacks;
use vstd::prelude::*;
use vstd::string::StringExecFns;

verus! {

/// What is looked up in an object is smaller than the object's members.
pub proof fn lemma_member_decreases(members: Seq<(Seq<char>, JsonModel)>, name: Seq<char>)
    ensures
        member(members, name) is Some ==> decreases_to!(members => member(members, name)->0),
    decreases members.len(),
{
    if members.len() > 0 {
        if members[0].0 == name {
            assert(decreases_to!(members => members[0]));
            assert(decreases_to!(members[0] => members[0].1));
        } else {
            lemma_member_decreases(members.drop_first(), name);
            vstd::seq::axiom_seq_len_decreases(members, members.drop_first());
        }
    }
}

/// An optional text read from an object member: absent and `null` give no
/// text, a string gives its text, anything else is malformed.
pub open spec fn decode_text(j: Option<JsonModel>) -> Option<Option<Seq<char>>> {
    match j {
        None => Some(None),
        Some(JsonModel::Null) => Some(None),
        Some(JsonModel::String(s)) => Some(Some(s)),
        Some(_) => None,
    }
}

/// An optional truth value read from an object member.
pub open spec fn decode_bool(j: Option<JsonModel>) -> Option<Option<bool>> {
    match j {
        None => Some(None),
        Some(JsonModel::Null) => Some(None),
        Some(JsonModel::Bool(b)) => Some(Some(b)),
        Some(_) => None,
    }
}

/// An optional integer read from an object member: only an integer that fits
/// 64 bits is well-formed.
pub open spec fn decode_integer(j: Option<JsonModel>) -> Option<Option<int>> {
    match j {
        None => Some(None),
        Some(JsonModel::Null) => Some(None),
        Some(JsonModel::Number(NumberModel::Integer(n))) => Some(Some(n)),
        Some(_) => None,
    }
}

/// An optional string unit read from an object member.
pub open spec fn decode_unit(j: Option<JsonModel>) -> Option<Option<UnitModel>> {
    match j {
        None => Some(None),
        Some(JsonModel::Null) => Some(None),
        Some(JsonModel::Object(members)) => match (
            decode_text(member(members, "state"@)),
            decode_text(member(members, "value"@)),
        ) {
            (Some(state), Some(value)) => Some(Some(UnitModel { state, value })),
            _ => None,
        },
        Some(_) => None,
    }
}

/// A localization read from a JSON value, or `None` where the value is malformed.
pub open spec fn decode_loc(j: JsonModel) -> Option<LocModel>
    decreases j, 0nat,
{
    match j {
        JsonModel::Object(members) => {
            let unit = decode_unit(member(members, "stringUnit"@));
            let substitutions = match member(members, "substitutions"@) {
                None => Some(Seq::empty()),
                Some(JsonModel::Object(inner)) => {
                    proof {
                        lemma_member_decreases(members, "substitutions"@);
                    }
                    decode_subs(inner)
                },
                Some(_) => None,
            };
            let variations = match member(members, "variations"@) {
                None => Some(Seq::empty()),
                Some(JsonModel::Object(inner)) => {
                    proof {
                        lemma_member_decreases(members, "variations"@);
                    }
                    decode_variations(inner)
                },
                Some(_) => None,
            };
            match (unit, substitutions, variations) {
                (Some(unit), Some(substitutions), Some(variations)) => Some(
                    LocModel { unit, substitutions, variations },
                ),
                _ => None,
            }
        },
        _ => None,
    }
}

/// A substitution read from a JSON value, or `None` where the value is malformed.
pub open spec fn decode_sub(j: JsonModel) -> Option<SubModel>
    decreases j, 0nat,
{
    match j {
        JsonModel::Object(members) => {
            let arg_num = decode_integer(member(members, "argNum"@));
            let format_specifier = decode_text(member(members, "formatSpecifier"@));
            let unit = decode_unit(member(members, "stringUnit"@));
            let variations = match member(members, "variations"@) {
                None => Some(Seq::empty()),
                Some(JsonModel::Object(inner)) => {
                    proof {
                        lemma_member_decreases(members, "variations"@);
                    }
                    decode_variations(inner)
                },
                Some(_) => None,
            };
            match (arg_num, format_specifier, unit, variations) {
                (Some(arg_num), Some(format_specifier), Some(unit), Some(variations)) => Some(
                    SubModel { arg_num, format_specifier, unit, variations },
                ),
                _ => None,
            }
        },
        _ => None,
    }
}

/// The localizations read from the members of an object, stored one after
/// the other; `None` where one of them is malformed.
pub open spec fn decode_cases(members: Seq<(Seq<char>, JsonModel)>) -> Option<CasesModel>
    decreases members, 0nat,
{
    if members.len() == 0 {
        Some(Seq::empty())
    } else {
        match (decode_cases(members.drop_last()), decode_loc(members.last().1)) {
            (Some(rest), Some(l)) => Some(put(rest, members.last().0, l)),
            _ => None,
        }
    }
}

/// The variation selectors read from the members of an object.
pub open spec fn decode_variations(members: Seq<(Seq<char>, JsonModel)>) -> Option<VariationsModel>
    decreases members, 0nat,
{
    if members.len() == 0 {
        Some(Seq::empty())
    } else {
        let cases = match members.last().1 {
            JsonModel::Object(inner) => decode_cases(inner),
            _ => None,
        };
        match (decode_variations(members.drop_last()), cases) {
            (Some(rest), Some(c)) => Some(put(rest, members.last().0, c)),
            _ => None,
        }
    }
}

/// The substitutions read from the members of an object.
pub open spec fn decode_subs(members: Seq<(Seq<char>, JsonModel)>) -> Option<
    Seq<(Seq<char>, SubModel)>,
>
    decreases members, 0nat,
{
    if members.len() == 0 {
        Some(Seq::empty())
    } else {
        match (decode_subs(members.drop_last()), decode_sub(members.last().1)) {
            (Some(rest), Some(s)) => Some(put(rest, members.last().0, s)),
            _ => None,
        }
    }
}

/// An entry read from a JSON value, or `None` where the value is malformed.
pub open spec fn decode_entry(j: JsonModel) -> Option<EntryModel> {
    match j {
        JsonModel::Object(members) => {
            let localizations = match member(members, "localizations"@) {
                None => Some(Seq::empty()),
                Some(JsonModel::Object(inner)) => decode_cases(inner),
                Some(_) => None,
            };
            match (
                decode_text(member(members, "comment"@)),
                decode_text(member(members, "extractionState"@)),
                localizations,
                decode_bool(member(members, "shouldTranslate"@)),
            ) {
                (Some(comment), Some(extraction_state), Some(localizations), Some(should_translate)) => Some(
                    EntryModel { comment, extraction_state, localizations, should_translate },
                ),
                _ => None,
            }
        },
        _ => None,
    }
}

/// The entries read from the members of an object.
pub open spec fn decode_entries(members: Seq<(Seq<char>, JsonModel)>) -> Option<
    Seq<(Seq<char>, EntryModel)>,
>
    decreases members.len(),
{
    if members.len() == 0 {
        Some(Seq::empty())
    } else {
        match (decode_entries(members.drop_last()), decode_entry(members.last().1)) {
            (Some(rest), Some(e)) => Some(put(rest, members.last().0, e)),
            _ => None,
        }
    }
}

/// The entries of a catalog as read from its `strings` member: none where
/// the member is absent or anything in it is malformed.
pub open spec fn decode_strings(j: Option<JsonModel>) -> Seq<(Seq<char>, EntryModel)> {
    match j {
        Some(JsonModel::Object(members)) => match decode_entries(members) {
            Some(entries) => entries,
            None => Seq::empty(),
        },
        _ => Seq::empty(),
    }
}

/// The text of a member that is a string, else the default.
pub open spec fn decode_text_or(j: Option<JsonModel>, default: Seq<char>) -> Seq<char> {
    match j {
        Some(JsonModel::String(s)) => s,
        _ => default,
    }
}

/// The format version read from its member: a string or an integer, else none.
pub open spec fn decode_format_version(j: Option<JsonModel>) -> Option<FormatVersionModel> {
    match j {
        Some(JsonModel::String(s)) => Some(FormatVersionModel::String(s)),
        Some(JsonModel::Number(NumberModel::Integer(n))) => Some(FormatVersionModel::Integer(n)),
        _ => None,
    }
}

/// The top-level members stored one after the other.
pub open spec fn decode_raw(members: Seq<(Seq<char>, JsonModel)>) -> Seq<(Seq<char>, JsonModel)>
    decreases members.len(),
{
    if members.len() == 0 {
        Seq::empty()
    } else {
        put(decode_raw(members.drop_last()), members.last().0, members.last().1)
    }
}

/// The catalog read from a JSON document: `None` unless the document is an
/// object. A missing version or source language takes its default; a format
/// version that is neither string nor integer, and entries that are
/// malformed, are left out.
pub open spec fn decode_catalog(j: JsonModel) -> Option<CatalogModel> {
    match j {
        JsonModel::Object(members) => {
            let raw = decode_raw(members);
            Some(
                CatalogModel {
                    raw,
                    version: decode_text_or(lookup(raw, "version"@), default_version_text()),
                    format_version: decode_format_version(lookup(raw, "formatVersion"@)),
                    source_language: decode_text_or(
                        lookup(raw, "sourceLanguage"@),
                        default_source_language_text(),
                    ),
                    strings: decode_strings(lookup(raw, "strings"@)),
                },
            )
        },
        _ => None,
    }
}

/// The variations read from an optional member: absent gives none, an
/// object gives what it holds, anything else is malformed.
pub open spec fn decode_variations_member(j: Option<JsonModel>) -> Option<VariationsModel> {
    match j {
        None => Some(Seq::empty()),
        Some(JsonModel::Object(inner)) => decode_variations(inner),
        Some(_) => None,
    }
}

/// The substitutions read from an optional member.
pub open spec fn decode_subs_member(j: Option<JsonModel>) -> Option<Seq<(Seq<char>, SubModel)>> {
    match j {
        None => Some(Seq::empty()),
        Some(JsonModel::Object(inner)) => decode_subs(inner),
        Some(_) => None,
    }
}

/// The localizations read from an optional member.
pub open spec fn decode_cases_member(j: Option<JsonModel>) -> Option<CasesModel> {
    match j {
        None => Some(Seq::empty()),
        Some(JsonModel::Object(inner)) => decode_cases(inner),
        Some(_) => None,
    }
}

/// The variations that an optional map holds.
pub open spec fn opt_variations_view(m: Option<Variations>) -> VariationsModel {
    match m {
        Some(v) => variations_view(v),
        None => Seq::empty(),
    }
}

/// The substitutions that an optional map holds.
pub open spec fn opt_subs_view(m: Option<OrderedMap<XcSubstitution>>) -> Seq<(Seq<char>, SubModel)> {
    match m {
        Some(v) => subs_view(v),
        None => Seq::empty(),
    }
}

/// The model of an optional reference to a JSON value.
pub open spec fn view_of(j: Option<&JsonValue>) -> Option<JsonModel> {
    match j {
        Some(v) => Some(v@),
        None => None,
    }
}

/// The model of an optional integer.
pub open spec fn integer_view(n: Option<i64>) -> Option<int> {
    match n {
        Some(i) => Some(i as int),
        None => None,
    }
}

/// The first member of an object with the given name.
pub fn find_member<'a>(members: &'a Vec<(String, JsonValue)>, name: &str) -> (r: Option<
    &'a JsonValue,
>)
    ensures
        member(members_view(members@), name@) == view_of(r),
        r is Some ==> exists|i: int| 0 <= i < members@.len() && members@[i].1 == *r->0,
{
    let ghost all = members_view(members@);
    let mut i: usize = 0;
    assert(all.skip(0) =~= all);
    while i < members.len()
        invariant
            all == members_view(members@),
            i <= members@.len(),
            member(all, name@) == member(all.skip(i as int), name@),
        decreases members@.len() - i,
    {
        let ghost rest = all.skip(i as int);
        assert(rest[0] == all[i as int]);
        assert(rest.drop_first() =~= all.skip(i + 1));
        if str_equal(members[i].0.as_str(), name) {
            return Some(&members[i].1);
        }
        i += 1;
    }
    None
}

fn read_text(j: Option<&JsonValue>) -> (r: Option<Option<String>>)
    ensures
        match r {
            Some(t) => decode_text(view_of(j)) == Some(text_view(t)),
            None => decode_text(view_of(j)) is None,
        },
{
    match j {
        None => Some(None),
        Some(JsonValue::Null) => Some(None),
        Some(JsonValue::String(s)) => Some(Some(s.clone())),
        Some(_) => None,
    }
}

fn read_bool(j: Option<&JsonValue>) -> (r: Option<Option<bool>>)
    ensures
        r == decode_bool(view_of(j)),
{
    match j {
        None => Some(None),
        Some(JsonValue::Null) => Some(None),
        Some(JsonValue::Bool(b)) => Some(Some(*b)),
        Some(_) => None,
    }
}

fn read_integer(j: Option<&JsonValue>) -> (r: Option<Option<i64>>)
    ensures
        match r {
            Some(n) => decode_integer(view_of(j)) == Some(integer_view(n)),
            None => decode_integer(view_of(j)) is None,
        },
{
    match j {
        None => Some(None),
        Some(JsonValue::Null) => Some(None),
        Some(JsonValue::Number(JsonNumber::Integer(n))) => Some(Some(*n)),
        Some(_) => None,
    }
}

fn read_unit(j: Option<&JsonValue>) -> (r: Option<Option<XcStringUnit>>)
    ensures
        match r {
            Some(u) => decode_unit(view_of(j)) == Some(unit_view(u)),
            None => decode_unit(view_of(j)) is None,
        },
{
    match j {
        None => Some(None),
        Some(JsonValue::Null) => Some(None),
        Some(JsonValue::Object(members)) => {
            let state = read_text(find_member(members, "state"));
            let value = read_text(find_member(members, "value"));
            match (state, value) {
                (Some(state), Some(value)) => Some(Some(XcStringUnit { state, value })),
                _ => None,
            }
        },
        Some(_) => None,
    }
}

fn read_variations_member(members: &Vec<(String, JsonValue)>) -> (r: Option<Option<Variations>>)
    ensures
        match r {
            Some(m) => decode_variations_member(member(members_view(members@), "variations"@))
                == Some(opt_variations_view(m)),
            None => decode_variations_member(member(members_view(members@), "variations"@))
                is None,
        },
    decreases *members,
{
    match find_member(members, "variations") {
        None => Some(None),
        Some(JsonValue::Object(inner)) => {
            match read_variations(inner) {
                Some(m) => Some(Some(m)),
                None => None,
            }
        },
        Some(_) => None,
    }
}

fn read_substitutions_member(members: &Vec<(String, JsonValue)>) -> (r: Option<
    Option<OrderedMap<XcSubstitution>>,
>)
    ensures
        match r {
            Some(m) => decode_subs_member(member(members_view(members@), "substitutions"@))
                == Some(opt_subs_view(m)),
            None => decode_subs_member(member(members_view(members@), "substitutions"@)) is None,
        },
    decreases *members,
{
    match find_member(members, "substitutions") {
        None => Some(None),
        Some(JsonValue::Object(inner)) => {
            match read_substitutions(inner) {
                Some(m) => Some(Some(m)),
                None => None,
            }
        },
        Some(_) => None,
    }
}

fn read_localization(j: &JsonValue) -> (r: Option<XcLocalization>)
    ensures
        match r {
            Some(l) => decode_loc(j@) == Some(l@),
            None => decode_loc(j@) is None,
        },
    decreases *j,
{
    match j {
        JsonValue::Object(members) => {
            let unit = read_unit(find_member(members, "stringUnit"));
            let substitutions = read_substitutions_member(members);
            let variations = read_variations_member(members);
            match (unit, substitutions, variations) {
                (Some(string_unit), Some(substitutions), Some(variations)) => Some(
                    XcLocalization { string_unit, substitutions, variations },
                ),
                _ => None,
            }
        },
        _ => None,
    }
}

fn read_substitution(j: &JsonValue) -> (r: Option<XcSubstitution>)
    ensures
        match r {
            Some(s) => decode_sub(j@) == Some(s@),
            None => decode_sub(j@) is None,
        },
    decreases *j,
{
    match j {
        JsonValue::Object(members) => {
            let arg_num = read_integer(find_member(members, "argNum"));
            let format_specifier = read_text(find_member(members, "formatSpecifier"));
            let unit = read_unit(find_member(members, "stringUnit"));
            let variations = read_variations_member(members);
            match (arg_num, format_specifier, unit, variations) {
                (Some(arg_num), Some(format_specifier), Some(string_unit), Some(variations)) => Some(
                    XcSubstitution { arg_num, format_specifier, string_unit, variations },
                ),
                _ => None,
            }
        },
        _ => None,
    }
}

fn read_cases(members: &Vec<(String, JsonValue)>) -> (r: Option<Cases>)
    ensures
        match r {
            Some(m) => m.wf() && decode_cases(members_view(members@)) == Some(cases_view(m)),
            None => decode_cases(members_view(members@)) is None,
        },
    decreases *members,
{
    let ghost all = members_view(members@);
    let mut out: Cases = OrderedMap::new();
    let mut i: usize = 0;
    assert(decode_cases(all.take(0)) == Some(cases_view(out))) by {
        assert(cases_view(out) =~= Seq::empty());
    }
    while i < members.len()
        invariant
            all == members_view(members@),
            i <= members@.len(),
            out.wf(),
            decode_cases(all.take(i as int)) == Some(cases_view(out)),
        decreases members@.len() - i,
    {
        proof {
            let next = all.take(i + 1);
            assert(next.drop_last() =~= all.take(i as int));
            assert(next.last() == all[i as int]);
        }
        match read_localization(&members[i].1) {
            Some(l) => {
                cases_put(&mut out, members[i].0.clone(), l);
            },
            None => {
                proof {
                    lemma_decode_cases_fails(all, i + 1);
                }
                return None;
            },
        }
        i += 1;
    }
    assert(all.take(i as int) =~= all);
    Some(out)
}

/// Once a prefix of the members is malformed, the whole is.
pub proof fn lemma_decode_cases_fails(members: Seq<(Seq<char>, JsonModel)>, n: int)
    requires
        0 <= n <= members.len(),
        decode_cases(members.take(n)) is None,
    ensures
        decode_cases(members) is None,
    decreases members.len() - n,
{
    if n < members.len() {
        assert(members.take(n + 1).drop_last() =~= members.take(n));
        lemma_decode_cases_fails(members, n + 1);
    } else {
        assert(members.take(n) =~= members);
    }
}

/// Once a prefix of the members is malformed, the whole is.
pub proof fn lemma_decode_variations_fails(members: Seq<(Seq<char>, JsonModel)>, n: int)
    requires
        0 <= n <= members.len(),
        decode_variations(members.take(n)) is None,
    ensures
        decode_variations(members) is None,
    decreases members.len() - n,
{
    if n < members.len() {
        assert(members.take(n + 1).drop_last() =~= members.take(n));
        lemma_decode_variations_fails(members, n + 1);
    } else {
        assert(members.take(n) =~= members);
    }
}

/// Once a prefix of the members is malformed, the whole is.
pub proof fn lemma_decode_subs_fails(members: Seq<(Seq<char>, JsonModel)>, n: int)
    requires
        0 <= n <= members.len(),
        decode_subs(members.take(n)) is None,
    ensures
        decode_subs(members) is None,
    decreases members.len() - n,
{
    if n < members.len() {
        assert(members.take(n + 1).drop_last() =~= members.take(n));
        lemma_decode_subs_fails(members, n + 1);
    } else {
        assert(members.take(n) =~= members);
    }
}

/// Once a prefix of the members is malformed, the whole is.
pub proof fn lemma_decode_entries_fails(members: Seq<(Seq<char>, JsonModel)>, n: int)
    requires
        0 <= n <= members.len(),
        decode_entries(members.take(n)) is None,
    ensures
        decode_entries(members) is None,
    decreases members.len() - n,
{
    if n < members.len() {
        assert(members.take(n + 1).drop_last() =~= members.take(n));
        lemma_decode_entries_fails(members, n + 1);
    } else {
        assert(members.take(n) =~= members);
    }
}

fn read_variations(members: &Vec<(String, JsonValue)>) -> (r: Option<Variations>)
    ensures
        match r {
            Some(m) => m.wf() && decode_variations(members_view(members@)) == Some(
                variations_view(m),
            ),
            None => decode_variations(members_view(members@)) is None,
        },
    decreases *members,
{
    let ghost all = members_view(members@);
    let mut out: Variations = OrderedMap::new();
    let mut i: usize = 0;
    assert(decode_variations(all.take(0)) == Some(variations_view(out))) by {
        assert(variations_view(out) =~= Seq::empty());
    }
    while i < members.len()
        invariant
            all == members_view(members@),
            i <= members@.len(),
            out.wf(),
            decode_variations(all.take(i as int)) == Some(variations_view(out)),
        decreases members@.len() - i,
    {
        proof {
            let next = all.take(i + 1);
            assert(next.drop_last() =~= all.take(i as int));
            assert(next.last() == all[i as int]);
        }
        let cases = match &members[i].1 {
            JsonValue::Object(inner) => read_cases(inner),
            _ => None,
        };
        match cases {
            Some(c) => {
                variations_put(&mut out, members[i].0.clone(), c);
            },
            None => {
                proof {
                    lemma_decode_variations_fails(all, i + 1);
                }
                return None;
            },
        }
        i += 1;
    }
    assert(all.take(i as int) =~= all);
    Some(out)
}

fn read_substitutions(members: &Vec<(String, JsonValue)>) -> (r: Option<OrderedMap<XcSubstitution>>)
    ensures
        match r {
            Some(m) => m.wf() && decode_subs(members_view(members@)) == Some(subs_view(m)),
            None => decode_subs(members_view(members@)) is None,
        },
    decreases *members,
{
    let ghost all = members_view(members@);
    let mut out: OrderedMap<XcSubstitution> = OrderedMap::new();
    let mut i: usize = 0;
    assert(decode_subs(all.take(0)) == Some(subs_view(out))) by {
        assert(subs_view(out) =~= Seq::empty());
    }
    while i < members.len()
        invariant
            all == members_view(members@),
            i <= members@.len(),
            out.wf(),
            decode_subs(all.take(i as int)) == Some(subs_view(out)),
        decreases members@.len() - i,
    {
        proof {
            let next = all.take(i + 1);
            assert(next.drop_last() =~= all.take(i as int));
            assert(next.last() == all[i as int]);
        }
        match read_substitution(&members[i].1) {
            Some(s) => {
                subs_put(&mut out, members[i].0.clone(), s);
            },
            None => {
                proof {
                    lemma_decode_subs_fails(all, i + 1);
                }
                return None;
            },
        }
        i += 1;
    }
    assert(all.take(i as int) =~= all);
    Some(out)
}

fn read_entry(j: &JsonValue) -> (r: Option<XcStringEntry>)
    ensures
        match r {
            Some(e) => decode_entry(j@) == Some(e@),
            None => decode_entry(j@) is None,
        },
{
    match j {
        JsonValue::Object(members) => {
            let localizations = match find_member(members, "localizations") {
                None => Some(OrderedMap::new()),
                Some(JsonValue::Object(inner)) => read_cases(inner),
                Some(_) => None,
            };
            let comment = read_text(find_member(members, "comment"));
            let extraction_state = read_text(find_member(members, "extractionState"));
            let should_translate = read_bool(find_member(members, "shouldTranslate"));
            match (comment, extraction_state, localizations, should_translate) {
                (Some(comment), Some(extraction_state), Some(localizations), Some(should_translate)) => {
                    let e = XcStringEntry {
                        comment,
                        extraction_state,
                        localizations,
                        should_translate,
                    };
                    assert(e@.localizations =~= decode_cases_member(
                        member(members_view(members@), "localizations"@),
                    )->0);
                    Some(e)
                },
                _ => None,
            }
        },
        _ => None,
    }
}

/// The keys of a map of entries are the keys of its model.
pub proof fn lemma_strings_keys(m: OrderedMap<XcStringEntry>)
    requires
        m.wf(),
    ensures
        keys_of(strings_view(m)) == m.keys(),
{
    assert(keys_of(strings_view(m)) =~= m.keys());
}

/// The keys of the top-level members are the keys of their model.
pub proof fn lemma_raw_keys(m: OrderedMap<JsonValue>)
    requires
        m.wf(),
    ensures
        keys_of(raw_view(m)) == m.keys(),
{
    assert(keys_of(raw_view(m)) =~= m.keys());
}

/// Stores an entry under a key.
pub fn strings_put(m: &mut OrderedMap<XcStringEntry>, key: String, e: XcStringEntry)
    ensures
        final(m).wf(),
        strings_view(*final(m)) == put(strings_view(*old(m)), key@, e@),
{
    let prev = m.insert(key, e);
    proof {
        lemma_strings_keys(*old(m));
        assert(strings_view(*m) =~= put(strings_view(*old(m)), key@, e@));
    }
}

/// Stores a top-level member under its name.
pub fn raw_put(m: &mut OrderedMap<JsonValue>, key: String, v: JsonValue)
    ensures
        final(m).wf(),
        raw_view(*final(m)) == put(raw_view(*old(m)), key@, v@),
{
    let prev = m.insert(key, v);
    proof {
        lemma_raw_keys(*old(m));
        assert(raw_view(*m) =~= put(raw_view(*old(m)), key@, v@));
    }
}

/// Removes the top-level member of a name.
pub fn raw_take(m: &mut OrderedMap<JsonValue>, key: &str)
    ensures
        final(m).wf(),
        raw_view(*final(m)) == take_out(raw_view(*old(m)), key@),
{
    let prev = m.shift_remove(key);
    proof {
        lemma_raw_keys(*old(m));
        assert(raw_view(*m) =~= take_out(raw_view(*old(m)), key@));
    }
}

/// The top-level member of a name.
pub fn raw_get<'a>(m: &'a OrderedMap<JsonValue>, key: &str) -> (r: Option<&'a JsonValue>)
    ensures
        view_of(r) == lookup(raw_view(*m), key@),
{
    let r = m.get(key);
    proof {
        lemma_raw_keys(*m);
    }
    r
}

fn read_entries(members: &Vec<(String, JsonValue)>) -> (r: Option<OrderedMap<XcStringEntry>>)
    ensures
        match r {
            Some(m) => m.wf() && decode_entries(members_view(members@)) == Some(strings_view(m)),
            None => decode_entries(members_view(members@)) is None,
        },
{
    let ghost all = members_view(members@);
    let mut out: OrderedMap<XcStringEntry> = OrderedMap::new();
    let mut i: usize = 0;
    assert(decode_entries(all.take(0)) == Some(strings_view(out))) by {
        assert(strings_view(out) =~= Seq::empty());
    }
    while i < members.len()
        invariant
            all == members_view(members@),
            i <= members@.len(),
            out.wf(),
            decode_entries(all.take(i as int)) == Some(strings_view(out)),
        decreases members@.len() - i,
    {
        proof {
            let next = all.take(i + 1);
            assert(next.drop_last() =~= all.take(i as int));
            assert(next.last() == all[i as int]);
        }
        match read_entry(&members[i].1) {
            Some(e) => {
                strings_put(&mut out, members[i].0.clone(), e);
            },
            None => {
                proof {
                    lemma_decode_entries_fails(all, i + 1);
                }
                return None;
            },
        }
        i += 1;
    }
    assert(all.take(i as int) =~= all);
    Some(out)
}

fn read_strings(j: Option<&JsonValue>) -> (r: OrderedMap<XcStringEntry>)
    ensures
        r.wf(),
        strings_view(r) == decode_strings(view_of(j)),
{
    let found = match j {
        Some(JsonValue::Object(members)) => read_entries(members),
        _ => None,
    };
    match found {
        Some(m) => m,
        None => {
            let m = OrderedMap::new();
            assert(strings_view(m) =~= Seq::empty());
            m
        },
    }
}

fn read_raw(members: &Vec<(String, JsonValue)>) -> (r: OrderedMap<JsonValue>)
    ensures
        r.wf(),
        raw_view(r) == decode_raw(members_view(members@)),
{
    let ghost all = members_view(members@);
    let mut out: OrderedMap<JsonValue> = OrderedMap::new();
    let mut i: usize = 0;
    assert(decode_raw(all.take(0)) =~= raw_view(out));
    while i < members.len()
        invariant
            all == members_view(members@),
            i <= members@.len(),
            out.wf(),
            decode_raw(all.take(i as int)) == raw_view(out),
        decreases members@.len() - i,
    {
        proof {
            let next = all.take(i + 1);
            assert(next.drop_last() =~= all.take(i as int));
            assert(next.last() == all[i as int]);
        }
        raw_put(&mut out, members[i].0.clone(), copy_json(&members[i].1));
        i += 1;
    }
    assert(all.take(i as int) =~= all);
    out
}

fn read_text_or(j: Option<&JsonValue>, default: String) -> (r: String)
    ensures
        r@ == decode_text_or(view_of(j), default@),
{
    match j {
        Some(JsonValue::String(s)) => s.clone(),
        _ => default,
    }
}

/// The model of an optional format version.
pub open spec fn format_version_view(v: Option<FormatVersion>) -> Option<FormatVersionModel> {
    match v {
        Some(f) => Some(f@),
        None => None,
    }
}

fn read_format_version(j: Option<&JsonValue>) -> (r: Option<FormatVersion>)
    ensures
        format_version_view(r) == decode_format_version(view_of(j)),
{
    match j {
        Some(JsonValue::String(s)) => Some(FormatVersion::String(s.clone())),
        Some(JsonValue::Number(JsonNumber::Integer(n))) => Some(FormatVersion::Integer(*n)),
        _ => None,
    }
}

/// The catalog that a fresh file stands for: version 1.0, source language
/// `en`, no entries.
pub open spec fn default_catalog() -> CatalogModel {
    CatalogModel {
        raw: seq![
            ("version"@, JsonModel::String(default_version_text())),
            ("sourceLanguage"@, JsonModel::String(default_source_language_text())),
            ("strings"@, JsonModel::Object(Seq::empty())),
        ],
        version: default_version_text(),
        format_version: None,
        source_language: default_source_language_text(),
        strings: Seq::empty(),
    }
}

/// A JSON text, or `null` where there is none.
pub open spec fn text_json(t: Option<Seq<char>>) -> JsonModel {
    match t {
        Some(s) => JsonModel::String(s),
        None => JsonModel::Null,
    }
}

/// One member where `present` holds, none where it does not.
pub open spec fn opt_member(name: Seq<char>, present: bool, j: JsonModel) -> Seq<
    (Seq<char>, JsonModel),
> {
    if present {
        seq![(name, j)]
    } else {
        Seq::empty()
    }
}

/// A string unit as JSON: its state, then its value, `null` where one is absent.
pub open spec fn encode_unit(u: UnitModel) -> JsonModel {
    JsonModel::Object(seq![("state"@, text_json(u.state)), ("value"@, text_json(u.value))])
}

/// The member `stringUnit`, where there is a string unit.
pub open spec fn unit_member(u: Option<UnitModel>) -> Seq<(Seq<char>, JsonModel)> {
    match u {
        Some(x) => seq![("stringUnit"@, encode_unit(x))],
        None => Seq::empty(),
    }
}

/// A localization as JSON: the members `stringUnit`, `substitutions` and
/// `variations` in this order, each only where it holds something.
pub open spec fn encode_loc(l: LocModel) -> JsonModel
    decreases l,
{
    JsonModel::Object(
        unit_member(l.unit) + opt_member(
            "substitutions"@,
            l.substitutions.len() > 0,
            JsonModel::Object(encode_subs(l.substitutions)),
        ) + opt_member(
            "variations"@,
            l.variations.len() > 0,
            JsonModel::Object(encode_variations(l.variations)),
        ),
    )
}

/// The member `argNum`, where there is an argument number.
pub open spec fn arg_num_member(n: Option<int>) -> Seq<(Seq<char>, JsonModel)> {
    match n {
        Some(i) => seq![("argNum"@, JsonModel::Number(NumberModel::Integer(i)))],
        None => Seq::empty(),
    }
}

/// A member that holds a text, where there is one.
pub open spec fn text_member(name: Seq<char>, t: Option<Seq<char>>) -> Seq<(Seq<char>, JsonModel)> {
    match t {
        Some(s) => seq![(name, JsonModel::String(s))],
        None => Seq::empty(),
    }
}

/// A substitution as JSON: the members `argNum`, `formatSpecifier`,
/// `stringUnit` and `variations` in this order, each only where it holds something.
pub open spec fn encode_sub(s: SubModel) -> JsonModel
    decreases s,
{
    JsonModel::Object(
        arg_num_member(s.arg_num) + text_member("formatSpecifier"@, s.format_specifier)
            + unit_member(s.unit) + opt_member(
            "variations"@,
            s.variations.len() > 0,
            JsonModel::Object(encode_variations(s.variations)),
        ),
    )
}

/// The members of an object of localizations, in the order of the mapping.
pub open spec fn encode_cases(cases: CasesModel) -> Seq<(Seq<char>, JsonModel)>
    decreases cases,
{
    Seq::new(
        cases.len(),
        |i: int|
            if 0 <= i < cases.len() {
                (cases[i].0, encode_loc(cases[i].1))
            } else {
                (Seq::empty(), JsonModel::Null)
            },
    )
}

/// The members of an object of variation selectors, in the order of the mapping.
pub open spec fn encode_variations(vars: VariationsModel) -> Seq<(Seq<char>, JsonModel)>
    decreases vars,
{
    Seq::new(
        vars.len(),
        |i: int|
            if 0 <= i < vars.len() {
                (vars[i].0, JsonModel::Object(encode_cases(vars[i].1)))
            } else {
                (Seq::empty(), JsonModel::Null)
            },
    )
}

/// The members of an object of substitutions, in the order of the mapping.
pub open spec fn encode_subs(subs: Seq<(Seq<char>, SubModel)>) -> Seq<(Seq<char>, JsonModel)>
    decreases subs,
{
    Seq::new(
        subs.len(),
        |i: int|
            if 0 <= i < subs.len() {
                (subs[i].0, encode_sub(subs[i].1))
            } else {
                (Seq::empty(), JsonModel::Null)
            },
    )
}

/// The member `shouldTranslate`, where the mark is set.
pub open spec fn should_translate_member(b: Option<bool>) -> Seq<(Seq<char>, JsonModel)> {
    match b {
        Some(x) => seq![("shouldTranslate"@, JsonModel::Bool(x))],
        None => Seq::empty(),
    }
}

/// An entry as JSON: the members `comment`, `extractionState`,
/// `localizations` and `shouldTranslate` in this order, each only where it
/// holds something.
pub open spec fn encode_entry(e: EntryModel) -> JsonModel {
    JsonModel::Object(
        text_member("comment"@, e.comment) + text_member("extractionState"@, e.extraction_state)
            + opt_member(
            "localizations"@,
            e.localizations.len() > 0,
            JsonModel::Object(encode_cases(e.localizations)),
        ) + should_translate_member(e.should_translate),
    )
}

/// The members of the object of entries, in the order of the mapping.
pub open spec fn encode_entries(entries: Seq<(Seq<char>, EntryModel)>) -> Seq<
    (Seq<char>, JsonModel),
> {
    Seq::new(entries.len(), |i: int| (entries[i].0, encode_entry(entries[i].1)))
}

/// A format version as JSON: a string or a number.
pub open spec fn encode_format_version(v: FormatVersionModel) -> JsonModel {
    match v {
        FormatVersionModel::String(s) => JsonModel::String(s),
        FormatVersionModel::Integer(n) => JsonModel::Number(NumberModel::Integer(n)),
    }
}

/// The top-level members of a catalog as they are written: those that were
/// read, in their order, with `version`, `formatVersion`, `sourceLanguage`
/// and `strings` brought up to date in place, or appended in this order
/// where they were not among them; `formatVersion` is left out where the
/// catalog has none.
pub open spec fn encode_members(c: CatalogModel) -> Seq<(Seq<char>, JsonModel)> {
    let with_version = put(c.raw, "version"@, JsonModel::String(c.version));
    let with_format = match c.format_version {
        Some(v) => put(with_version, "formatVersion"@, encode_format_version(v)),
        None => take_out(with_version, "formatVersion"@),
    };
    let with_language = put(with_format, "sourceLanguage"@, JsonModel::String(c.source_language));
    put(with_language, "strings"@, JsonModel::Object(encode_entries(c.strings)))
}

/// A catalog as a JSON document.
pub open spec fn encode_catalog(c: CatalogModel) -> JsonModel {
    JsonModel::Object(encode_members(c))
}

fn write_text(t: &Option<String>) -> (r: JsonValue)
    ensures
        r@ == text_json(text_view(*t)),
{
    match t {
        Some(s) => JsonValue::String(s.clone()),
        None => JsonValue::Null,
    }
}

fn write_unit(u: &XcStringUnit) -> (r: JsonValue)
    ensures
        r@ == encode_unit(u@),
{
    let mut members: Vec<(String, JsonValue)> = Vec::new();
    members.push((String::from_str("state"), write_text(&u.state)));
    members.push((String::from_str("value"), write_text(&u.value)));
    assert(members_view(members@) =~= encode_unit(u@)->Object_0);
    JsonValue::Object(members)
}

fn push_unit(members: &mut Vec<(String, JsonValue)>, u: &Option<XcStringUnit>)
    ensures
        members_view(final(members)@) == members_view(old(members)@) + unit_member(unit_view(*u)),
{
    match u {
        Some(x) => {
            members.push((String::from_str("stringUnit"), write_unit(x)));
        },
        None => {},
    }
    assert(members_view(members@) =~= members_view(old(members)@) + unit_member(unit_view(*u)));
}

fn push_text(members: &mut Vec<(String, JsonValue)>, name: &str, t: &Option<String>)
    ensures
        members_view(final(members)@) == members_view(old(members)@) + text_member(
            name@,
            text_view(*t),
        ),
{
    match t {
        Some(s) => {
            members.push((String::from_str(name), JsonValue::String(s.clone())));
        },
        None => {},
    }
    assert(members_view(members@) =~= members_view(old(members)@) + text_member(
        name@,
        text_view(*t),
    ));
}

fn push_variations(members: &mut Vec<(String, JsonValue)>, vars: &Option<Variations>)
    ensures
        members_view(final(members)@) == members_view(old(members)@) + opt_member(
            "variations"@,
            opt_variations_view(*vars).len() > 0,
            JsonModel::Object(encode_variations(opt_variations_view(*vars))),
        ),
    decreases *vars,
{
    match vars {
        Some(m) => {
            if !m.is_empty() {
                assert(decreases_to!(*vars => vars->0));
                members.push((String::from_str("variations"), JsonValue::Object(write_variations(m))));
            }
        },
        None => {},
    }
    assert(members_view(members@) =~= members_view(old(members)@) + opt_member(
        "variations"@,
        opt_variations_view(*vars).len() > 0,
        JsonModel::Object(encode_variations(opt_variations_view(*vars))),
    ));
}

fn write_localization(l: &XcLocalization) -> (r: JsonValue)
    ensures
        r@ == encode_loc(l@),
    decreases *l,
{
    let mut members: Vec<(String, JsonValue)> = Vec::new();
    assert(members_view(members@) =~= Seq::empty());
    push_unit(&mut members, &l.string_unit);
    let ghost first = members_view(members@);
    match &l.substitutions {
        Some(m) => {
            if !m.is_empty() {
                assert(decreases_to!(l.substitutions => l.substitutions->0));
                members.push(
                    (String::from_str("substitutions"), JsonValue::Object(write_substitutions(m))),
                );
            }
        },
        None => {},
    }
    assert(members_view(members@) =~= first + opt_member(
        "substitutions"@,
        l@.substitutions.len() > 0,
        JsonModel::Object(encode_subs(l@.substitutions)),
    ));
    push_variations(&mut members, &l.variations);
    assert(members_view(members@) =~= encode_loc(l@)->Object_0);
    JsonValue::Object(members)
}

fn write_substitution(s: &XcSubstitution) -> (r: JsonValue)
    ensures
        r@ == encode_sub(s@),
    decreases *s,
{
    let mut members: Vec<(String, JsonValue)> = Vec::new();
    assert(members_view(members@) =~= Seq::empty());
    match s.arg_num {
        Some(n) => {
            members.push((String::from_str("argNum"), JsonValue::Number(JsonNumber::Integer(n))));
        },
        None => {},
    }
    assert(members_view(members@) =~= arg_num_member(s@.arg_num));
    push_text(&mut members, "formatSpecifier", &s.format_specifier);
    push_unit(&mut members, &s.string_unit);
    push_variations(&mut members, &s.variations);
    assert(members_view(members@) =~= encode_sub(s@)->Object_0);
    JsonValue::Object(members)
}

fn write_cases(cases: &Cases) -> (r: Vec<(String, JsonValue)>)
    ensures
        members_view(r@) == encode_cases(cases_view(*cases)),
    decreases *cases,
{
    let mut out: Vec<(String, JsonValue)> = Vec::new();
    let n = cases.len();
    let mut i: usize = 0;
    while i < n
        invariant
            cases.wf(),
            n == cases.values().len(),
            i <= n,
            out@.len() == i,
            forall|k: int|
                0 <= k < i ==> (#[trigger] out@[k]).0@ == cases.keys()[k] && out@[k].1@
                    == encode_loc(loc_view(cases.values()[k])),
        decreases n - i,
    {
        proof {
            cases.lemma_decreases();
        }
        out.push((cases.key_at(i).clone(), write_localization(cases.value_at(i))));
        i += 1;
    }
    assert(members_view(out@) =~= encode_cases(cases_view(*cases)));
    out
}

fn write_variations(vars: &Variations) -> (r: Vec<(String, JsonValue)>)
    ensures
        members_view(r@) == encode_variations(variations_view(*vars)),
    decreases *vars,
{
    let mut out: Vec<(String, JsonValue)> = Vec::new();
    let n = vars.len();
    let mut i: usize = 0;
    while i < n
        invariant
            vars.wf(),
            n == vars.values().len(),
            i <= n,
            out@.len() == i,
            forall|k: int|
                0 <= k < i ==> (#[trigger] out@[k]).0@ == vars.keys()[k] && out@[k].1@
                    == JsonModel::Object(encode_cases(cases_view(vars.values()[k]))),
        decreases n - i,
    {
        proof {
            vars.lemma_decreases();
        }
        out.push((vars.key_at(i).clone(), JsonValue::Object(write_cases(vars.value_at(i)))));
        i += 1;
    }
    assert(members_view(out@) =~= encode_variations(variations_view(*vars)));
    out
}

fn write_substitutions(subs: &OrderedMap<XcSubstitution>) -> (r: Vec<(String, JsonValue)>)
    ensures
        members_view(r@) == encode_subs(subs_view(*subs)),
    decreases *subs,
{
    let mut out: Vec<(String, JsonValue)> = Vec::new();
    let n = subs.len();
    let mut i: usize = 0;
    while i < n
        invariant
            subs.wf(),
            n == subs.values().len(),
            i <= n,
            out@.len() == i,
            forall|k: int|
                0 <= k < i ==> (#[trigger] out@[k]).0@ == subs.keys()[k] && out@[k].1@
                    == encode_sub(sub_view(subs.values()[k])),
        decreases n - i,
    {
        proof {
            subs.lemma_decreases();
        }
        out.push((subs.key_at(i).clone(), write_substitution(subs.value_at(i))));
        i += 1;
    }
    assert(members_view(out@) =~= encode_subs(subs_view(*subs)));
    out
}

fn write_entry(e: &XcStringEntry) -> (r: JsonValue)
    ensures
        r@ == encode_entry(e@),
{
    let mut members: Vec<(String, JsonValue)> = Vec::new();
    assert(members_view(members@) =~= Seq::empty());
    push_text(&mut members, "comment", &e.comment);
    push_text(&mut members, "extractionState", &e.extraction_state);
    let ghost first = members_view(members@);
    if !e.localizations.is_empty() {
        members.push(
            (String::from_str("localizations"), JsonValue::Object(write_cases(&e.localizations))),
        );
    }
    assert(members_view(members@) =~= first + opt_member(
        "localizations"@,
        e@.localizations.len() > 0,
        JsonModel::Object(encode_cases(e@.localizations)),
    ));
    let ghost second = members_view(members@);
    match e.should_translate {
        Some(b) => {
            members.push((String::from_str("shouldTranslate"), JsonValue::Bool(b)));
        },
        None => {},
    }
    assert(members_view(members@) =~= second + should_translate_member(e@.should_translate));
    assert(members_view(members@) =~= encode_entry(e@)->Object_0);
    JsonValue::Object(members)
}

fn write_entries(entries: &OrderedMap<XcStringEntry>) -> (r: Vec<(String, JsonValue)>)
    ensures
        members_view(r@) == encode_entries(strings_view(*entries)),
{
    let mut out: Vec<(String, JsonValue)> = Vec::new();
    let n = entries.len();
    let mut i: usize = 0;
    while i < n
        invariant
            entries.wf(),
            n == entries.values().len(),
            i <= n,
            out@.len() == i,
            forall|k: int|
                0 <= k < i ==> (#[trigger] out@[k]).0@ == entries.keys()[k] && out@[k].1@
                    == encode_entry(entries.values()[k]@),
        decreases n - i,
    {
        out.push((entries.key_at(i).clone(), write_entry(entries.value_at(i))));
        i += 1;
    }
    assert(members_view(out@) =~= encode_entries(strings_view(*entries)));
    out
}

fn write_format_version(v: &FormatVersion) -> (r: JsonValue)
    ensures
        r@ == encode_format_version(v@),
{
    match v {
        FormatVersion::String(s) => JsonValue::String(s.clone()),
        FormatVersion::Integer(n) => JsonValue::Number(JsonNumber::Integer(*n)),
    }
}

pub(crate) fn copy_raw(raw: &OrderedMap<JsonValue>) -> (r: OrderedMap<JsonValue>)
    ensures
        r.wf(),
        raw_view(r) == raw_view(*raw),
{
    let mut out: OrderedMap<JsonValue> = OrderedMap::new();
    let n = raw.len();
    let mut i: usize = 0;
    while i < n
        invariant
            raw.wf(),
            out.wf(),
            n == raw.values().len(),
            i <= n,
            out.keys() == raw.keys().take(i as int),
            out.values().len() == i,
            forall|k: int| 0 <= k < i ==> (#[trigger] out.values()[k])@ == raw.values()[k]@,
        decreases n - i,
    {
        proof {
            lemma_prefix_lacks(raw.keys(), i as int);
        }
        out.insert(raw.key_at(i).clone(), copy_json(raw.value_at(i)));
        i += 1;
        assert(out.keys() =~= raw.keys().take(i as int));
    }
    assert(raw.keys().take(n as int) =~= raw.keys());
    assert(raw_view(out) =~= raw_view(*raw));
    out
}

fn into_members(raw: OrderedMap<JsonValue>) -> (r: Vec<(String, JsonValue)>)
    ensures
        members_view(r@) == raw_view(raw),
{
    let mut left = raw;
    let mut out: Vec<(String, JsonValue)> = Vec::new();
    let mut remaining = left.len();
    let ghost all = raw_view(raw);
    assert(all.skip(0) =~= all);
    assert(members_view(out@) =~= all.take(0));
    while remaining > 0
        invariant
            left.wf(),
            remaining == left.values().len(),
            out@.len() + remaining == all.len(),
            raw_view(left) == all.skip(out@.len() as int),
            members_view(out@) == all.take(out@.len() as int),
        decreases remaining,
    {
        let ghost before = raw_view(left);
        let ghost done = out@.len() as int;
        let (name, value) = left.shift_remove_index(0);
        assert(before[0] == (name@, value@));
        out.push((name, value));
        remaining -= 1;
        proof {
            assert(raw_view(left) =~= before.remove(0));
            assert(before.remove(0) =~= all.skip(done + 1));
            assert(members_view(out@) =~= all.take(done + 1));
        }
    }
    assert(all.take(all.len() as int) =~= all);
    out
}

impl Default for XcStringsFile {
    /// The catalog of a fresh file: see [`default_catalog`].
    fn default() -> (doc: Self)
        ensures
            doc@ == default_catalog(),
    {
        let mut raw: OrderedMap<JsonValue> = OrderedMap::new();
        assert(raw_view(raw) =~= Seq::empty());
        proof {
            reveal_strlit("version");
            reveal_strlit("sourceLanguage");
            reveal_strlit("strings");
        }
        raw_put(&mut raw, String::from_str("version"), JsonValue::String(default_version()));
        raw_put(
            &mut raw,
            String::from_str("sourceLanguage"),
            JsonValue::String(default_source_language()),
        );
        let empty: Vec<(String, JsonValue)> = Vec::new();
        assert(members_view(empty@) =~= Seq::empty());
        proof {
            let one = seq![("version"@, JsonModel::String(default_version_text()))];
            assert(keys_of(Seq::<(Seq<char>, JsonModel)>::empty()) =~= Seq::empty());
            assert(keys_of(one) =~= seq!["version"@]);
            assert("version"@ != "sourceLanguage"@) by {
                assert("version"@[0] == 'v');
                assert("sourceLanguage"@[0] == 's');
            }
            assert(!keys_of(one).contains("sourceLanguage"@));
            let two = one.push(("sourceLanguage"@, JsonModel::String(default_source_language_text())));
            assert(keys_of(two) =~= seq!["version"@, "sourceLanguage"@]);
            assert("version"@ != "strings"@) by {
                assert("version"@[0] == 'v');
                assert("strings"@[0] == 's');
            }
            assert("sourceLanguage"@ != "strings"@) by {
                assert("sourceLanguage"@[1] == 'o');
                assert("strings"@[1] == 't');
            }
            assert(!keys_of(two).contains("strings"@));
        }
        raw_put(&mut raw, String::from_str("strings"), JsonValue::Object(empty));
        let strings: OrderedMap<XcStringEntry> = OrderedMap::new();
        assert(strings_view(strings) =~= Seq::empty());
        assert(raw_view(raw) =~= default_catalog().raw);
        XcStringsFile {
            raw,
            version: default_version(),
            format_version: None,
            source_language: default_source_language(),
            strings,
        }
    }
}

impl XcStringsFile {
    /// Reads a catalog from a JSON document: see [`decode_catalog`]. A
    /// document that is no object is rejected as malformed.
    pub fn from_json_value(value: &JsonValue) -> (r: Result<Self, StoreError>)
        ensures
            match r {
                Ok(doc) => decode_catalog(value@) == Some(doc@),
                Err(e) => decode_catalog(value@) is None && e is ParseFailed,
            },
    {
        match value {
            JsonValue::Object(members) => {
                let raw = read_raw(members);
                let version = read_text_or(raw_get(&raw, "version"), default_version());
                let format_version = read_format_version(raw_get(&raw, "formatVersion"));
                let source_language = read_text_or(
                    raw_get(&raw, "sourceLanguage"),
                    default_source_language(),
                );
                let strings = read_strings(raw_get(&raw, "strings"));
                Ok(XcStringsFile { raw, version, format_version, source_language, strings })
            },
            _ => Err(StoreError::ParseFailed(String::from_str("the catalog is not a JSON object"))),
        }
    }

    /// The catalog as a JSON document: see [`encode_catalog`].
    pub fn to_json_value(&self) -> (r: JsonValue)
        ensures
            r@ == encode_catalog(self@),
    {
        let mut raw = copy_raw(&self.raw);
        raw_put(&mut raw, String::from_str("version"), JsonValue::String(self.version.clone()));
        match &self.format_version {
            Some(v) => {
                raw_put(&mut raw, String::from_str("formatVersion"), write_format_version(v));
            },
            None => {
                raw_take(&mut raw, "formatVersion");
            },
        }
        raw_put(
            &mut raw,
            String::from_str("sourceLanguage"),
            JsonValue::String(self.source_language.clone()),
        );
        raw_put(
            &mut raw,
            String::from_str("strings"),
            JsonValue::Object(write_entries(&self.strings)),
        );
        JsonValue::Object(into_members(raw))
    }
}

} // verus!
