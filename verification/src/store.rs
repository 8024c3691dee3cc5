use crate::apple_json_formatter::{render, to_apple_format};
use crate::catalog::{
    add_language_to_entries, entries_have_language, entry_index, entry_or_default,
    language_added, language_removed, language_renamed, remove_language_from_entries,
    rename_language_in_entries, upsert_in_strings, upserted_loc, upserted_strings,
    with_localizations, with_strings,
};
use crate::codec::{
    decode_catalog, default_catalog, encode_catalog, lemma_strings_keys, strings_put,
};
use crate::error::{ErrorModel, StoreError};
use crate::languages::{
    is_language, is_language_list, language_in_entries, language_list, texts,
};
use crate::model::{
    CatalogModel, EntryModel, XcStringsFile, strings_view, text_view,
};
use crate::normalize::{normalize_catalog, normalize_strings_file};
use crate::parse::{parse_json, parsed_json};
use crate::progress::{
    LanguageProgress, UntranslatedKeys, is_progress_report, is_untranslated_report, progress_view,
    untranslated_view,
};
use crate::records::{
    TranslationRecord, TranslationSummary, query_of, records_of, records_view, summaries_of,
    summaries_view,
};
use crate::text::{str_equal, trim, trimmed};
use crate::valid::catalog_keys_unique;
use crate::update::{
    TranslationUpdate, cases_take, keys_of, lemma_cases_keys, lookup, put, take_out,
};
use crate::value::{TranslationValue, ValueModel, value_of_loc};
use vstd::prelude::*;
use vstd::string::StringExecFns;

verus! {

/// The text of a catalog as it is written to its file.
pub open spec fn serialized(c: CatalogModel) -> Seq<char> {
    render(encode_catalog(c), 0)
}

/// A catalog as a store holds it: normalized, and without a name twice in
/// any of its ordered mappings. Every store that this module hands out is
/// valid, and every operation leaves a valid store valid.
pub open spec fn is_valid(c: CatalogModel) -> bool {
    catalog_keys_unique(c) && normalize_catalog(c) == c
}

/// One catalog file in memory: the path it belongs to and its document. The
/// document is normalized when it is loaded and after every change, and
/// every change hands back the text that the file is to hold.
#[derive(Debug)]
pub struct XcStringsStore {
    path: String,
    data: XcStringsFile,
}

/// What loading a catalog from the text of its file gives: the document that
/// the text denotes, read as a catalog and normalized; `None` where the text
/// is no JSON or the document is no object.
pub open spec fn loaded(text: Seq<char>) -> Option<CatalogModel> {
    match parsed_json(text) {
        Some(j) => match decode_catalog(j) {
            Some(c) => Some(normalize_catalog(c)),
            None => None,
        },
        None => None,
    }
}

/// The message with which a blank language code is turned down.
pub open spec fn empty_language_message() -> Seq<char> {
    "Language code cannot be empty"@
}

/// Why a language cannot be added, if it cannot: its code is blank, or the
/// catalog has the language.
pub open spec fn add_language_error(c: CatalogModel, language: Seq<char>) -> Option<ErrorModel> {
    let code = trimmed(language);
    if code.len() == 0 {
        Some(ErrorModel::InvalidLanguage(empty_language_message()))
    } else if is_language(c, code) {
        Some(ErrorModel::LanguageExists(code))
    } else {
        None
    }
}

/// Why a language cannot be removed, if it cannot: its code is blank, it is
/// the source language, or no entry has it.
pub open spec fn remove_language_error(c: CatalogModel, language: Seq<char>) -> Option<ErrorModel> {
    let code = trimmed(language);
    if code.len() == 0 {
        Some(ErrorModel::InvalidLanguage(empty_language_message()))
    } else if code == c.source_language {
        Some(ErrorModel::CannotRemoveSourceLanguage(code))
    } else if !language_in_entries(c.strings, code) {
        Some(ErrorModel::LanguageMissing(code))
    } else {
        None
    }
}

/// Why a language cannot be renamed, if it cannot: a code is blank, the old
/// one is the source language, no entry has the old one, or an entry has the
/// new one, the old one included.
pub open spec fn update_language_error(
    c: CatalogModel,
    old_language: Seq<char>,
    new_language: Seq<char>,
) -> Option<ErrorModel> {
    let from = trimmed(old_language);
    let to = trimmed(new_language);
    if from.len() == 0 || to.len() == 0 {
        Some(ErrorModel::InvalidLanguage(empty_language_message()))
    } else if from == c.source_language {
        Some(ErrorModel::CannotRenameSourceLanguage(from))
    } else if !language_in_entries(c.strings, from) {
        Some(ErrorModel::LanguageMissing(from))
    } else if language_in_entries(c.strings, to) {
        Some(ErrorModel::LanguageExists(to))
    } else {
        None
    }
}

/// What a catalog holds for a key and a language, as it is reported.
pub open spec fn translation_of(c: CatalogModel, key: Seq<char>, language: Seq<char>) -> Option<
    ValueModel,
> {
    match lookup(c.strings, key) {
        Some(e) => match lookup(e.localizations, language) {
            Some(l) => Some(value_of_loc(l)),
            None => None,
        },
        None => None,
    }
}

/// Whether a catalog holds a localization for a key and a language.
pub open spec fn has_translation(c: CatalogModel, key: Seq<char>, language: Seq<char>) -> bool {
    match lookup(c.strings, key) {
        Some(e) => keys_of(e.localizations).contains(language),
        None => false,
    }
}

/// The entries without the localization of a key and a language; the entry
/// goes with it where it has no other localization.
pub open spec fn translation_deleted(
    strings: Seq<(Seq<char>, EntryModel)>,
    key: Seq<char>,
    language: Seq<char>,
) -> Seq<(Seq<char>, EntryModel)> {
    let e = entry_or_default(strings, key);
    let left = take_out(e.localizations, language);
    if left.len() == 0 {
        take_out(strings, key)
    } else {
        put(strings, key, with_localizations(e, left))
    }
}

/// The entries with the entry of one key moved to another key, at the end.
pub open spec fn key_renamed(
    strings: Seq<(Seq<char>, EntryModel)>,
    old_key: Seq<char>,
    new_key: Seq<char>,
) -> Seq<(Seq<char>, EntryModel)> {
    put(take_out(strings, old_key), new_key, entry_or_default(strings, old_key))
}

/// Why a key cannot be renamed, if it cannot: the new key is taken, or the
/// old one is missing. Renaming a key to itself is no error.
pub open spec fn rename_key_error(c: CatalogModel, old_key: Seq<char>, new_key: Seq<char>) -> Option<
    ErrorModel,
> {
    if old_key == new_key {
        None
    } else if keys_of(c.strings).contains(new_key) {
        Some(ErrorModel::KeyExists(new_key))
    } else if !keys_of(c.strings).contains(old_key) {
        Some(ErrorModel::KeyMissing(old_key))
    } else {
        None
    }
}

/// An entry with another comment.
pub open spec fn with_comment(e: EntryModel, comment: Option<Seq<char>>) -> EntryModel {
    EntryModel {
        comment,
        extraction_state: e.extraction_state,
        localizations: e.localizations,
        should_translate: e.should_translate,
    }
}

/// An entry with another extraction state.
pub open spec fn with_extraction_state(e: EntryModel, state: Option<Seq<char>>) -> EntryModel {
    EntryModel {
        comment: e.comment,
        extraction_state: state,
        localizations: e.localizations,
        should_translate: e.should_translate,
    }
}

/// An entry with another should-translate mark.
pub open spec fn with_should_translate(e: EntryModel, mark: Option<bool>) -> EntryModel {
    EntryModel {
        comment: e.comment,
        extraction_state: e.extraction_state,
        localizations: e.localizations,
        should_translate: mark,
    }
}

impl View for XcStringsStore {
    type V = CatalogModel;

    closed spec fn view(&self) -> CatalogModel {
        self.data@
    }
}

impl XcStringsStore {
    /// The path of the file that the store belongs to.
    pub closed spec fn path_text(&self) -> Seq<char> {
        self.path@
    }

    /// A store for a document, which is normalized.
    pub fn from_document(path: String, doc: XcStringsFile) -> (store: Self)
        ensures
            store@ == normalize_catalog(doc@),
            store.path_text() == path@,
            is_valid(store@),
    {
        proof {
            crate::normalize_laws::lemma_normalize_idempotent(doc@);
        }
        let mut data = doc;
        normalize_strings_file(&mut data);
        XcStringsStore { path, data }
    }

    /// A store for the file at `path`: `contents` is the text of the file, or
    /// `None` where there is no such file, which gives a fresh catalog. A
    /// text that cannot be read as a catalog is rejected as malformed.
    pub fn load_or_create(path: String, contents: Option<&str>) -> (r: Result<Self, StoreError>)
        ensures
            match r {
                Ok(store) => store.path_text() == path@ && is_valid(store@) && store@ == (match contents {
                    Some(text) => loaded(text@)->0,
                    None => normalize_catalog(default_catalog()),
                }),
                Err(e) => e is ParseFailed,
            },
            r is Ok <==> (contents is None || loaded(contents->0@) is Some),
    {
        match contents {
            Some(text) => match parse_json(text) {
                Ok(json) => match XcStringsFile::from_json_value(&json) {
                    Ok(doc) => Ok(Self::from_document(path, doc)),
                    Err(e) => Err(e),
                },
                Err(message) => Err(StoreError::ParseFailed(message)),
            },
            None => Ok(Self::from_document(path, XcStringsFile::default())),
        }
    }

    /// The path of the file that the store belongs to.
    pub fn path(&self) -> (r: &str)
        ensures
            r@ == self.path_text(),
    {
        self.path.as_str()
    }

    /// The document of the store.
    pub fn document(&self) -> (doc: &XcStringsFile)
        ensures
            doc@ == self@,
    {
        &self.data
    }

    /// Replaces the document by what the text of the file now holds. A text
    /// that cannot be read as a catalog leaves the store as it is.
    pub fn reload(&mut self, contents: &str) -> (r: Result<(), StoreError>)
        ensures
            final(self).path_text() == old(self).path_text(),
            is_valid(old(self)@) ==> is_valid(final(self)@),
            r is Ok ==> is_valid(final(self)@),
            match r {
                Ok(_) => loaded(contents@) == Some(final(self)@),
                Err(e) => loaded(contents@) is None && e is ParseFailed && final(self)@ == old(self)@,
            },
    {
        match parse_json(contents) {
            Ok(json) => match XcStringsFile::from_json_value(&json) {
                Ok(doc) => {
                    proof {
                        crate::normalize_laws::lemma_normalize_idempotent(doc@);
                    }
                    let mut data = doc;
                    normalize_strings_file(&mut data);
                    self.data = data;
                    Ok(())
                },
                Err(e) => Err(e),
            },
            Err(message) => Err(StoreError::ParseFailed(message)),
        }
    }

    /// Replaces the document by what the text of the file now holds, as
    /// [`Self::reload`] does, but keeps the document where the text cannot be
    /// read as a catalog: a store that is found again is brought up to date
    /// where that can be done, and served as it is where it cannot.
    pub fn reload_or_keep(&mut self, contents: &str)
        ensures
            final(self).path_text() == old(self).path_text(),
            is_valid(old(self)@) ==> is_valid(final(self)@),
            loaded(contents@) is Some ==> is_valid(final(self)@),
            final(self)@ == (match loaded(contents@) {
                Some(c) => c,
                None => old(self)@,
            }),
    {
        let _ = self.reload(contents);
    }

    /// The text that the file of the store is to hold: see [`serialized`].
    pub fn serialize(&self) -> (text: String)
        ensures
            text@ == serialized(self@),
    {
        let json = self.data.to_json_value();
        to_apple_format(&json)
    }

    /// The languages of the catalog, each once, in the order of `str`: the
    /// source language and every language that an entry has.
    pub fn list_languages(&self) -> (list: Vec<String>)
        ensures
            is_language_list(texts(list@), self@),
    {
        language_list(&self.data)
    }

    /// For each language that has untranslated keys, the language and those
    /// keys: see [`crate::progress::list_untranslated`].
    pub fn list_untranslated(&self) -> (r: Vec<UntranslatedKeys>)
        ensures
            is_untranslated_report(untranslated_view(r@), self@),
    {
        crate::progress::list_untranslated(&self.data)
    }

    /// For each language the two counts of which its percentage is a hundred
    /// times the quotient: see [`crate::progress::translation_progress`].
    pub fn get_translation_percentages(&self) -> (r: Vec<LanguageProgress>)
        ensures
            is_progress_report(progress_view(r@), self@),
    {
        crate::progress::translation_progress(&self.data)
    }

    /// The records of the entries that pass a filter, which matches without
    /// regard to case: see [`records_of`].
    pub fn list_records(&self, filter: Option<&str>) -> (r: Vec<TranslationRecord>)
        ensures
            records_view(r@) == records_of(self@.strings, query_of(filter)),
    {
        crate::records::list_records(&self.data, filter)
    }

    /// The summaries of the entries that pass a filter, which matches
    /// without regard to case: see [`summaries_of`].
    pub fn list_summaries(&self, filter: Option<&str>) -> (r: Vec<TranslationSummary>)
        ensures
            summaries_view(r@) == summaries_of(self@.strings, query_of(filter)),
    {
        crate::records::list_summaries(&self.data, filter)
    }

    fn has_language(&self, code: &str) -> (r: bool)
        ensures
            r == is_language(self@, code@),
    {
        let list = language_list(&self.data);
        let mut i: usize = 0;
        while i < list.len()
            invariant
                is_language_list(texts(list@), self@),
                i <= list@.len(),
                forall|k: int| 0 <= k < i ==> texts(list@)[k] != code@,
            decreases list@.len() - i,
        {
            if str_equal(list[i].as_str(), code) {
                assert(texts(list@)[i as int] == code@);
                assert(texts(list@).contains(code@));
                return true;
            }
            i += 1;
        }
        assert(!texts(list@).contains(code@));
        false
    }

    fn finish(&mut self) -> (text: String)
        ensures
            final(self).path_text() == old(self).path_text(),
            final(self)@ == normalize_catalog(old(self)@),
            is_valid(final(self)@),
            text@ == serialized(final(self)@),
    {
        proof {
            crate::normalize_laws::lemma_normalize_idempotent(self.data@);
        }
        normalize_strings_file(&mut self.data);
        self.serialize()
    }

    /// Adds a language: every entry that lacks it gets a placeholder for it,
    /// with the state `needs-translation` and no value. Fails where the code
    /// is blank or the catalog has the language: see [`add_language_error`].
    /// Returns the text that the file is to hold.
    pub fn add_language(&mut self, language: &str) -> (r: Result<String, StoreError>)
        ensures
            final(self).path_text() == old(self).path_text(),
            is_valid(old(self)@) ==> is_valid(final(self)@),
            r is Ok ==> is_valid(final(self)@),
            match r {
                Ok(text) => add_language_error(old(self)@, language@) is None && final(self)@
                    == normalize_catalog(
                    with_strings(old(self)@, language_added(old(self)@.strings, trimmed(language@))),
                ) && text@ == serialized(final(self)@),
                Err(e) => add_language_error(old(self)@, language@) == Some(e@) && final(self)@
                    == old(self)@,
            },
    {
        let code = trim(language);
        if code.as_str().is_empty() {
            return Err(StoreError::InvalidLanguage(String::from_str("Language code cannot be empty")));
        }
        if self.has_language(code.as_str()) {
            return Err(StoreError::LanguageExists(code));
        }
        add_language_to_entries(&mut self.data.strings, code.as_str());
        Ok(self.finish())
    }

    /// Removes a language from every entry; an entry left without any
    /// localization goes. Fails where the code is blank, names the source
    /// language, or is in no entry: see [`remove_language_error`].
    /// Returns the text that the file is to hold.
    pub fn remove_language(&mut self, language: &str) -> (r: Result<String, StoreError>)
        ensures
            final(self).path_text() == old(self).path_text(),
            is_valid(old(self)@) ==> is_valid(final(self)@),
            r is Ok ==> is_valid(final(self)@),
            match r {
                Ok(text) => remove_language_error(old(self)@, language@) is None && final(self)@
                    == normalize_catalog(
                    with_strings(
                        old(self)@,
                        language_removed(old(self)@.strings, trimmed(language@)),
                    ),
                ) && text@ == serialized(final(self)@),
                Err(e) => remove_language_error(old(self)@, language@) == Some(e@) && final(self)@ == old(self)@,
            },
    {
        let code = trim(language);
        if code.as_str().is_empty() {
            return Err(StoreError::InvalidLanguage(String::from_str("Language code cannot be empty")));
        }
        if str_equal(code.as_str(), self.data.source_language.as_str()) {
            return Err(StoreError::CannotRemoveSourceLanguage(code));
        }
        if !entries_have_language(&self.data.strings, code.as_str()) {
            return Err(StoreError::LanguageMissing(code));
        }
        remove_language_from_entries(&mut self.data.strings, code.as_str());
        Ok(self.finish())
    }

    /// Renames a language: in every entry that has it, its localization
    /// moves to the new code and becomes the entry's last. Fails as
    /// [`update_language_error`] says. Returns the text that the file is to hold.
    pub fn update_language(&mut self, old_language: &str, new_language: &str) -> (r: Result<
        String,
        StoreError,
    >)
        ensures
            final(self).path_text() == old(self).path_text(),
            is_valid(old(self)@) ==> is_valid(final(self)@),
            r is Ok ==> is_valid(final(self)@),
            match r {
                Ok(text) => update_language_error(old(self)@, old_language@, new_language@)
                    is None && final(self)@ == normalize_catalog(
                    with_strings(
                        old(self)@,
                        language_renamed(
                            old(self)@.strings,
                            trimmed(old_language@),
                            trimmed(new_language@),
                        ),
                    ),
                ) && text@ == serialized(final(self)@),
                Err(e) => update_language_error(old(self)@, old_language@, new_language@) == Some(
                    e@,
                ) && final(self)@ == old(self)@,
            },
    {
        let from = trim(old_language);
        if from.as_str().is_empty() {
            return Err(StoreError::InvalidLanguage(String::from_str("Language code cannot be empty")));
        }
        let to = trim(new_language);
        if to.as_str().is_empty() {
            return Err(StoreError::InvalidLanguage(String::from_str("Language code cannot be empty")));
        }
        if str_equal(from.as_str(), self.data.source_language.as_str()) {
            return Err(StoreError::CannotRenameSourceLanguage(from));
        }
        if !entries_have_language(&self.data.strings, from.as_str()) {
            return Err(StoreError::LanguageMissing(from));
        }
        if entries_have_language(&self.data.strings, to.as_str()) {
            return Err(StoreError::LanguageExists(to));
        }
        rename_language_in_entries(&mut self.data.strings, from.as_str(), to.as_str());
        Ok(self.finish())
    }

    /// What the catalog holds for a key and a language, or `None` where it
    /// holds nothing for the pair. Never fails.
    pub fn get_translation(&self, key: &str, language: &str) -> (r: Result<
        Option<TranslationValue>,
        StoreError,
    >)
        ensures
            r is Ok,
            match r->Ok_0 {
                Some(v) => translation_of(self@, key@, language@) == Some(v@),
                None => translation_of(self@, key@, language@) is None,
            },
    {
        let found = self.data.strings.get(key);
        proof {
            lemma_strings_keys(self.data.strings);
        }
        match found {
            Some(entry) => {
                let loc = entry.localizations.get(language);
                proof {
                    lemma_cases_keys(entry.localizations);
                }
                match loc {
                    Some(l) => Ok(Some(TranslationValue::from_localization(l))),
                    None => Ok(None),
                }
            },
            None => Ok(None),
        }
    }

    /// Creates or updates the localization of a key and a language by a
    /// partial update: see [`upserted_strings`]. Returns the localization as
    /// the update leaves it, and the text that the file is to hold. Never fails.
    pub fn upsert_translation(&mut self, key: &str, language: &str, update: TranslationUpdate) -> (r:
        Result<(TranslationValue, String), StoreError>)
        ensures
            final(self).path_text() == old(self).path_text(),
            is_valid(old(self)@) ==> is_valid(final(self)@),
            r is Ok ==> is_valid(final(self)@),
            r is Ok,
            r->Ok_0.0@ == value_of_loc(upserted_loc(old(self)@.strings, key@, language@, update@)),
            final(self)@ == normalize_catalog(
                with_strings(
                    old(self)@,
                    upserted_strings(old(self)@.strings, key@, language@, update@),
                ),
            ),
            r->Ok_0.1@ == serialized(final(self)@),
    {
        let updated = upsert_in_strings(&mut self.data.strings, key, language, &update);
        let text = self.finish();
        Ok((updated, text))
    }

    /// Deletes the localization of a key and a language; the entry goes with
    /// it where it has no other localization. Fails with `TranslationMissing`
    /// exactly where the catalog holds nothing for the pair. Returns the
    /// text that the file is to hold.
    pub fn delete_translation(&mut self, key: &str, language: &str) -> (r: Result<String, StoreError>)
        ensures
            final(self).path_text() == old(self).path_text(),
            is_valid(old(self)@) ==> is_valid(final(self)@),
            r is Ok ==> is_valid(final(self)@),
            match r {
                Ok(text) => has_translation(old(self)@, key@, language@) && final(self)@
                    == normalize_catalog(
                    with_strings(
                        old(self)@,
                        translation_deleted(old(self)@.strings, key@, language@),
                    ),
                ) && text@ == serialized(final(self)@),
                Err(e) => !has_translation(old(self)@, key@, language@) && e@
                    == (ErrorModel::TranslationMissing { key: key@, language: language@ })
                    && final(self)@ == old(self)@,
            },
    {
        let ghost before = strings_view(self.data.strings);
        let found = self.data.strings.index_of(key);
        proof {
            lemma_strings_keys(self.data.strings);
        }
        let exists = match found {
            Some(i) => {
                let has = self.data.strings.value_at(i).localizations.contains_key(language);
                proof {
                    self.data.strings.lemma_position(i as int);
                    lemma_cases_keys(self.data.strings.value_at_spec(i as int).localizations);
                }
                if has {
                    let ghost mid = self.data.strings;
                    let entry = self.data.strings.value_at_mut(i);
                    let removed = cases_take(&mut entry.localizations, language);
                    let emptied = entry.localizations.is_empty();
                    proof {
                        let e = entry_or_default(before, key@);
                        let left = take_out(e.localizations, language@);
                        assert(strings_view(self.data.strings) =~= put(
                            before,
                            key@,
                            with_localizations(e, left),
                        ));
                    }
                    if emptied {
                        let ghost now = self.data.strings;
                        proof {
                            lemma_strings_keys(now);
                        }
                        self.data.strings.shift_remove_index(i);
                        proof {
                            assert(strings_view(self.data.strings) =~= take_out(before, key@));
                        }
                    }
                }
                has
            },
            None => false,
        };
        if !exists {
            return Err(
                StoreError::TranslationMissing {
                    key: String::from_str(key),
                    language: String::from_str(language),
                },
            );
        }
        Ok(self.finish())
    }

    /// Deletes a key with all its localizations. Fails with `KeyMissing`
    /// exactly where the catalog has no such key. Returns the text that the
    /// file is to hold.
    pub fn delete_key(&mut self, key: &str) -> (r: Result<String, StoreError>)
        ensures
            final(self).path_text() == old(self).path_text(),
            is_valid(old(self)@) ==> is_valid(final(self)@),
            r is Ok ==> is_valid(final(self)@),
            match r {
                Ok(text) => keys_of(old(self)@.strings).contains(key@) && final(self)@
                    == normalize_catalog(
                    with_strings(old(self)@, take_out(old(self)@.strings, key@)),
                ) && text@ == serialized(final(self)@),
                Err(e) => !keys_of(old(self)@.strings).contains(key@) && e@
                    == ErrorModel::KeyMissing(key@) && final(self)@ == old(self)@,
            },
    {
        let ghost before = strings_view(self.data.strings);
        let removed = self.data.strings.shift_remove(key);
        proof {
            lemma_strings_keys(old(self).data.strings);
        }
        if removed.is_none() {
            return Err(StoreError::KeyMissing(String::from_str(key)));
        }
        proof {
            assert(strings_view(self.data.strings) =~= take_out(before, key@));
        }
        Ok(self.finish())
    }

    /// Renames a key: its entry moves to the new key and becomes the last
    /// entry. Fails with `KeyExists` where the new key is taken, else with
    /// `KeyMissing` where the old one is missing. Renaming a key to itself
    /// changes nothing and returns `None`; else the text that the file is to hold.
    pub fn rename_key(&mut self, old_key: &str, new_key: &str) -> (r: Result<
        Option<String>,
        StoreError,
    >)
        ensures
            final(self).path_text() == old(self).path_text(),
            is_valid(old(self)@) ==> is_valid(final(self)@),
            (r is Ok && r->Ok_0 is Some) ==> is_valid(final(self)@),
            match r {
                Ok(Some(text)) => rename_key_error(old(self)@, old_key@, new_key@) is None
                    && old_key@ != new_key@ && final(self)@ == normalize_catalog(
                    with_strings(old(self)@, key_renamed(old(self)@.strings, old_key@, new_key@)),
                ) && text@ == serialized(final(self)@),
                Ok(None) => old_key@ == new_key@ && final(self)@ == old(self)@,
                Err(e) => rename_key_error(old(self)@, old_key@, new_key@) == Some(e@) && final(self)@ == old(self)@,
            },
    {
        if str_equal(old_key, new_key) {
            return Ok(None);
        }
        let ghost before = strings_view(self.data.strings);
        let taken = self.data.strings.contains_key(new_key);
        proof {
            lemma_strings_keys(self.data.strings);
        }
        if taken {
            return Err(StoreError::KeyExists(String::from_str(new_key)));
        }
        match self.data.strings.shift_remove(old_key) {
            Some(entry) => {
                proof {
                    assert(strings_view(self.data.strings) =~= take_out(before, old_key@));
                }
                strings_put(&mut self.data.strings, String::from_str(new_key), entry);
                Ok(Some(self.finish()))
            },
            None => Err(StoreError::KeyMissing(String::from_str(old_key))),
        }
    }

    /// Sets or clears the extraction state of a key, whose entry is created
    /// where the catalog has none. Returns the text that the file is to hold.
    /// Never fails.
    pub fn set_extraction_state(&mut self, key: &str, state: Option<String>) -> (r: Result<
        String,
        StoreError,
    >)
        ensures
            final(self).path_text() == old(self).path_text(),
            is_valid(old(self)@) ==> is_valid(final(self)@),
            r is Ok ==> is_valid(final(self)@),
            r is Ok,
            final(self)@ == normalize_catalog(
                with_strings(
                    old(self)@,
                    put(
                        old(self)@.strings,
                        key@,
                        with_extraction_state(
                            entry_or_default(old(self)@.strings, key@),
                            text_view(state),
                        ),
                    ),
                ),
            ),
            r->Ok_0@ == serialized(final(self)@),
    {
        let ghost before = strings_view(self.data.strings);
        let i = entry_index(&mut self.data.strings, key);
        let ghost mid = self.data.strings;
        let entry = self.data.strings.value_at_mut(i);
        entry.extraction_state = state;
        proof {
            lemma_strings_keys(mid);
            mid.lemma_position(i as int);
            let e = entry_or_default(before, key@);
            let target = with_extraction_state(e, text_view(state));
            assert(strings_view(self.data.strings) =~= put(strings_view(mid), key@, target));
            crate::catalog::lemma_put_twice(before, key@, e, target);
        }
        Ok(self.finish())
    }

    /// Sets or clears the comment of a key, whose entry is created where the
    /// catalog has none. Returns the text that the file is to hold. Never fails.
    pub fn set_comment(&mut self, key: &str, comment: Option<String>) -> (r: Result<
        String,
        StoreError,
    >)
        ensures
            final(self).path_text() == old(self).path_text(),
            is_valid(old(self)@) ==> is_valid(final(self)@),
            r is Ok ==> is_valid(final(self)@),
            r is Ok,
            final(self)@ == normalize_catalog(
                with_strings(
                    old(self)@,
                    put(
                        old(self)@.strings,
                        key@,
                        with_comment(entry_or_default(old(self)@.strings, key@), text_view(comment)),
                    ),
                ),
            ),
            r->Ok_0@ == serialized(final(self)@),
    {
        let ghost before = strings_view(self.data.strings);
        let i = entry_index(&mut self.data.strings, key);
        let ghost mid = self.data.strings;
        let entry = self.data.strings.value_at_mut(i);
        entry.comment = comment;
        proof {
            lemma_strings_keys(mid);
            mid.lemma_position(i as int);
            let e = entry_or_default(before, key@);
            let target = with_comment(e, text_view(comment));
            assert(strings_view(self.data.strings) =~= put(strings_view(mid), key@, target));
            crate::catalog::lemma_put_twice(before, key@, e, target);
        }
        Ok(self.finish())
    }

    /// Sets or clears the should-translate mark of a key, whose entry is
    /// created where the catalog has none. Returns the text that the file is
    /// to hold. Never fails.
    pub fn set_should_translate(&mut self, key: &str, should_translate: Option<bool>) -> (r: Result<
        String,
        StoreError,
    >)
        ensures
            final(self).path_text() == old(self).path_text(),
            is_valid(old(self)@) ==> is_valid(final(self)@),
            r is Ok ==> is_valid(final(self)@),
            r is Ok,
            final(self)@ == normalize_catalog(
                with_strings(
                    old(self)@,
                    put(
                        old(self)@.strings,
                        key@,
                        with_should_translate(
                            entry_or_default(old(self)@.strings, key@),
                            should_translate,
                        ),
                    ),
                ),
            ),
            r->Ok_0@ == serialized(final(self)@),
    {
        let ghost before = strings_view(self.data.strings);
        let i = entry_index(&mut self.data.strings, key);
        let ghost mid = self.data.strings;
        let entry = self.data.strings.value_at_mut(i);
        entry.should_translate = should_translate;
        proof {
            lemma_strings_keys(mid);
            mid.lemma_position(i as int);
            let e = entry_or_default(before, key@);
            let target = with_should_translate(e, should_translate);
            assert(strings_view(self.data.strings) =~= put(strings_view(mid), key@, target));
            crate::catalog::lemma_put_twice(before, key@, e, target);
        }
        Ok(self.finish())
    }
}

} // verus!
