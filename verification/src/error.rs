use vstd::prelude::*;
use vstd::string::StringExecFns;

verus! {

/// What can go wrong with a catalog. None of these ends the process: each is
/// handed to the caller.
#[derive(Debug, Clone)]
pub enum StoreError {
    /// The file could not be read.
    ReadFailed(String),
    /// The file could not be written.
    WriteFailed(String),
    /// The stored content is malformed.
    ParseFailed(String),
    TranslationMissing { key: String, language: String },
    KeyMissing(String),
    KeyExists(String),
    /// No path was given and no default file is configured.
    PathRequired,
    LanguageMissing(String),
    LanguageExists(String),
    InvalidLanguage(String),
    CannotRemoveSourceLanguage(String),
    CannotRenameSourceLanguage(String),
}

/// The mathematical value of a [`StoreError`].
pub enum ErrorModel {
    ReadFailed(Seq<char>),
    WriteFailed(Seq<char>),
    ParseFailed(Seq<char>),
    TranslationMissing { key: Seq<char>, language: Seq<char> },
    KeyMissing(Seq<char>),
    KeyExists(Seq<char>),
    PathRequired,
    LanguageMissing(Seq<char>),
    LanguageExists(Seq<char>),
    InvalidLanguage(Seq<char>),
    CannotRemoveSourceLanguage(Seq<char>),
    CannotRenameSourceLanguage(Seq<char>),
}

impl View for StoreError {
    type V = ErrorModel;

    open spec fn view(&self) -> ErrorModel {
        match *self {
            StoreError::ReadFailed(m) => ErrorModel::ReadFailed(m@),
            StoreError::WriteFailed(m) => ErrorModel::WriteFailed(m@),
            StoreError::ParseFailed(m) => ErrorModel::ParseFailed(m@),
            StoreError::TranslationMissing { key, language } => ErrorModel::TranslationMissing {
                key: key@,
                language: language@,
            },
            StoreError::KeyMissing(k) => ErrorModel::KeyMissing(k@),
            StoreError::KeyExists(k) => ErrorModel::KeyExists(k@),
            StoreError::PathRequired => ErrorModel::PathRequired,
            StoreError::LanguageMissing(l) => ErrorModel::LanguageMissing(l@),
            StoreError::LanguageExists(l) => ErrorModel::LanguageExists(l@),
            StoreError::InvalidLanguage(m) => ErrorModel::InvalidLanguage(m@),
            StoreError::CannotRemoveSourceLanguage(l) => ErrorModel::CannotRemoveSourceLanguage(l@),
            StoreError::CannotRenameSourceLanguage(l) => ErrorModel::CannotRenameSourceLanguage(l@),
        }
    }
}

/// The message of an error, as a sentence for people.
pub open spec fn message_text(e: ErrorModel) -> Seq<char> {
    match e {
        ErrorModel::ReadFailed(m) => "failed to read xcstrings file: "@ + m,
        ErrorModel::WriteFailed(m) => "failed to write xcstrings file: "@ + m,
        ErrorModel::ParseFailed(m) => "failed to deserialize/serialize xcstrings json: "@ + m,
        ErrorModel::TranslationMissing { key, language } => "translation not found for key '"@
            + key + "' and language '"@ + language + "'"@,
        ErrorModel::KeyMissing(k) => "string key '"@ + k + "' not found"@,
        ErrorModel::KeyExists(k) => "string key '"@ + k + "' already exists"@,
        ErrorModel::PathRequired =>
            "xcstrings path is required when no default file has been configured"@,
        ErrorModel::LanguageMissing(l) => "language '"@ + l + "' not found"@,
        ErrorModel::LanguageExists(l) => "language '"@ + l + "' already exists"@,
        ErrorModel::InvalidLanguage(m) => "invalid language: "@ + m,
        ErrorModel::CannotRemoveSourceLanguage(l) => "cannot remove source language '"@ + l
            + "'"@,
        ErrorModel::CannotRenameSourceLanguage(l) => "cannot rename source language '"@ + l
            + "'"@,
    }
}

fn joined(before: &str, after: &str) -> (r: String)
    ensures
        r@ == before@ + after@,
{
    let mut r = String::from_str(before);
    r.append(after);
    r
}

fn framed(before: &str, middle: &str, after: &str) -> (r: String)
    ensures
        r@ == before@ + middle@ + after@,
{
    let mut r = String::from_str(before);
    r.append(middle);
    r.append(after);
    r
}

impl StoreError {
    /// The message of the error: see [`message_text`].
    pub fn message(&self) -> (r: String)
        ensures
            r@ == message_text(self@),
    {
        match self {
            StoreError::ReadFailed(m) => joined("failed to read xcstrings file: ", m.as_str()),
            StoreError::WriteFailed(m) => joined("failed to write xcstrings file: ", m.as_str()),
            StoreError::ParseFailed(m) => joined(
                "failed to deserialize/serialize xcstrings json: ",
                m.as_str(),
            ),
            StoreError::TranslationMissing { key, language } => {
                let mut r = framed("translation not found for key '", key.as_str(), "' and language '");
                r.append(language.as_str());
                r.append("'");
                r
            },
            StoreError::KeyMissing(k) => framed("string key '", k.as_str(), "' not found"),
            StoreError::KeyExists(k) => framed("string key '", k.as_str(), "' already exists"),
            StoreError::PathRequired => String::from_str(
                "xcstrings path is required when no default file has been configured",
            ),
            StoreError::LanguageMissing(l) => framed("language '", l.as_str(), "' not found"),
            StoreError::LanguageExists(l) => framed("language '", l.as_str(), "' already exists"),
            StoreError::InvalidLanguage(m) => joined("invalid language: ", m.as_str()),
            StoreError::CannotRemoveSourceLanguage(l) => framed(
                "cannot remove source language '",
                l.as_str(),
                "'",
            ),
            StoreError::CannotRenameSourceLanguage(l) => framed(
                "cannot rename source language '",
                l.as_str(),
                "'",
            ),
        }
    }
}

} // verus!
