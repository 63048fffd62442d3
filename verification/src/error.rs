//! What can go wrong with a media source.
use vstd::prelude::*;
use vstd::string::*;

use crate::text::joined;

verus! {

/// Why a source could not be opened or read.
#[derive(Debug, PartialEq, Eq)]
pub enum SourceError {
    /// The operating system refused an operation.
    Io(String),
    /// An HTTP exchange failed.
    Http(String),
    /// No source can open this URI.
    Unsupported(String),
    /// The URI does not name a usable file descriptor.
    InvalidFileDescriptorUri(String),
}

/// A [`SourceError`] with its text as a sequence of characters.
pub enum SourceErrorView {
    Io(Seq<char>),
    Http(Seq<char>),
    Unsupported(Seq<char>),
    InvalidFileDescriptorUri(Seq<char>),
}

impl View for SourceError {
    type V = SourceErrorView;

    open spec fn view(&self) -> SourceErrorView {
        match self {
            SourceError::Io(text) => SourceErrorView::Io(text@),
            SourceError::Http(text) => SourceErrorView::Http(text@),
            SourceError::Unsupported(text) => SourceErrorView::Unsupported(text@),
            SourceError::InvalidFileDescriptorUri(text) => {
                SourceErrorView::InvalidFileDescriptorUri(text@)
            },
        }
    }
}

impl SourceErrorView {
    /// The sentence shown to a user.
    pub open spec fn message(self) -> Seq<char> {
        match self {
            SourceErrorView::Io(text) => "io error: "@ + text,
            SourceErrorView::Http(text) => "http error: "@ + text,
            SourceErrorView::Unsupported(text) => "unsupported source URI: "@ + text,
            SourceErrorView::InvalidFileDescriptorUri(text) => {
                "invalid owned file descriptor URI: "@ + text
            },
        }
    }
}

impl SourceError {
    /// The sentence shown to a user.
    pub fn message(&self) -> (message: String)
        ensures
            message@ == self@.message(),
    {
        match self {
            SourceError::Io(text) => joined("io error: ".to_string(), text.as_str()),
            SourceError::Http(text) => joined("http error: ".to_string(), text.as_str()),
            SourceError::Unsupported(text) => {
                joined("unsupported source URI: ".to_string(), text.as_str())
            },
            SourceError::InvalidFileDescriptorUri(text) => {
                joined("invalid owned file descriptor URI: ".to_string(), text.as_str())
            },
        }
    }
}

/// What is shown of an error names its cause and ends with all of its text.
pub proof fn law_messages_end_with_the_text(text: Seq<char>)
    ensures
        SourceErrorView::Io(text).message() == "io error: "@ + text,
        SourceErrorView::Http(text).message() == "http error: "@ + text,
        SourceErrorView::Unsupported(text).message() == "unsupported source URI: "@ + text,
        SourceErrorView::InvalidFileDescriptorUri(text).message()
            == "invalid owned file descriptor URI: "@ + text,
{
}

/// What contracts say of an error is said of its cause and all of its text.
pub proof fn law_errors_are_seen_as_they_are(text: String)
    ensures
        SourceError::Io(text)@ == SourceErrorView::Io(text@),
        SourceError::Http(text)@ == SourceErrorView::Http(text@),
        SourceError::Unsupported(text)@ == SourceErrorView::Unsupported(text@),
        SourceError::InvalidFileDescriptorUri(text)@ == SourceErrorView::InvalidFileDescriptorUri(
            text@,
        ),
{
}

} // verus!
