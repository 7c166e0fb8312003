//! Why a derive input is refused, and the message the derive reports for it.

use vstd::prelude::*;

verus! {

/// The reasons for which the enumerator refuses a derive input.
pub enum EnumeratorError {
    /// The input text is not a struct, enum or union definition; the parser's message.
    InvalidInput(String),
    /// The derive is attached to an enum or a union.
    NotAStruct,
    /// The derive is attached to a struct whose fields are not named.
    FieldsNotNamed,
    /// A `#[tag ..]` attribute of the named field whose arguments are not a
    /// parenthesized list of paths.
    MalformedTag(String),
    /// A `#[tag()]` attribute with no argument.
    EmptyTag,
    /// A `#[tag(..)]` attribute of the named field whose last argument is not
    /// a single identifier.
    TagNotIdent(String),
}

pub enum ErrorView {
    InvalidInput(Seq<char>),
    NotAStruct,
    FieldsNotNamed,
    MalformedTag(Seq<char>),
    EmptyTag,
    TagNotIdent(Seq<char>),
}

impl View for EnumeratorError {
    type V = ErrorView;

    open spec fn view(&self) -> ErrorView {
        match self {
            EnumeratorError::InvalidInput(m) => ErrorView::InvalidInput(m@),
            EnumeratorError::NotAStruct => ErrorView::NotAStruct,
            EnumeratorError::FieldsNotNamed => ErrorView::FieldsNotNamed,
            EnumeratorError::MalformedTag(f) => ErrorView::MalformedTag(f@),
            EnumeratorError::EmptyTag => ErrorView::EmptyTag,
            EnumeratorError::TagNotIdent(f) => ErrorView::TagNotIdent(f@),
        }
    }
}

/// The text that the derive reports for each refusal.
pub open spec fn error_message(e: ErrorView) -> Seq<char> {
    match e {
        ErrorView::InvalidInput(m) => m,
        ErrorView::NotAStruct => "FieldEnumerator only works on structs"@,
        ErrorView::FieldsNotNamed => "FieldEnumerator only works on structs with named fields"@,
        ErrorView::MalformedTag(f) =>
            "FieldEnumerator attribute #tag(#TagType#) expects one parameter that represents event for field "@
                + f,
        ErrorView::EmptyTag => "called `Option::unwrap()` on a `None` value"@,
        ErrorView::TagNotIdent(f) =>
            "FieldEnumerator attribute #tag(#TagType#) expects one parameter of type indent that represents event for field "@
                + f,
    }
}

impl EnumeratorError {
    /// The message reported for this refusal.
    pub fn message(&self) -> (m: String)
        ensures
            m@ == error_message(self@),
    {
        match self {
            EnumeratorError::InvalidInput(m) => m.clone(),
            EnumeratorError::NotAStruct => "FieldEnumerator only works on structs".to_owned(),
            EnumeratorError::FieldsNotNamed => {
                "FieldEnumerator only works on structs with named fields".to_owned()
            },
            EnumeratorError::MalformedTag(f) => {
                let mut m =
                    "FieldEnumerator attribute #tag(#TagType#) expects one parameter that represents event for field "
                    .to_owned();
                m.append(f.as_str());
                m
            },
            EnumeratorError::EmptyTag => "called `Option::unwrap()` on a `None` value".to_owned(),
            EnumeratorError::TagNotIdent(f) => {
                let mut m =
                    "FieldEnumerator attribute #tag(#TagType#) expects one parameter of type indent that represents event for field "
                    .to_owned();
                m.append(f.as_str());
                m
            },
        }
    }
}

} // verus!
