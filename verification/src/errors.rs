//! What can go wrong, and how it is told to the user.

use crate::text::{contains_text, joined};
use colored::Colorize;
use vstd::prelude::*;

verus! {

/// An error of the installer.
#[derive(Debug, Clone, PartialEq, Eq)]
pub enum InstallerError {
    /// The menu choice was no number.
    NotANumber,
    /// The menu choice was a number that stands for nothing.
    InvalidNumber,
    /// The installer could not be set up.
    Init(String),
    /// The installation could not be carried out.
    Installation(String),
    /// Anything else.
    Unknown(String),
}

/// An [`InstallerError`] as contracts see it.
pub enum InstallerErrorView {
    NotANumber,
    InvalidNumber,
    Init(Seq<char>),
    Installation(Seq<char>),
    Unknown(Seq<char>),
}

impl DeepView for InstallerError {
    type V = InstallerErrorView;

    open spec fn deep_view(&self) -> InstallerErrorView {
        match self {
            InstallerError::NotANumber => InstallerErrorView::NotANumber,
            InstallerError::InvalidNumber => InstallerErrorView::InvalidNumber,
            InstallerError::Init(detail) => InstallerErrorView::Init(detail@),
            InstallerError::Installation(detail) => InstallerErrorView::Installation(detail@),
            InstallerError::Unknown(detail) => InstallerErrorView::Unknown(detail@),
        }
    }
}

impl InstallerErrorView {
    /// The sentence that tells the error.
    pub open spec fn message(self) -> Seq<char> {
        match self {
            InstallerErrorView::NotANumber => "Invalid choice. Please try again."@,
            InstallerErrorView::InvalidNumber => "Invalid input. Please enter a number."@,
            InstallerErrorView::Init(detail) => "Failed to initialize installer: "@ + detail,
            InstallerErrorView::Installation(detail) => "Installation failed: "@ + detail,
            InstallerErrorView::Unknown(detail) => "An error occurred: "@ + detail,
        }
    }

    /// The sentence behind the mark that sets an error off.
    pub open spec fn marked(self) -> Seq<char> {
        "❌ "@ + self.message()
    }
}

/// A result as contracts see it.
pub open spec fn result_view<T: DeepView>(result: Result<T, InstallerError>) -> Result<
    T::V,
    InstallerErrorView,
> {
    match result {
        Ok(value) => Ok(value.deep_view()),
        Err(error) => Err(error.deep_view()),
    }
}

/// The escape sequence that switches a terminal to bold red.
pub open spec fn bold_red_on() -> Seq<char> {
    "\u{1b}[1;31m"@
}

/// The escape sequence that switches a terminal back.
pub open spec fn style_off() -> Seq<char> {
    "\u{1b}[0m"@
}

/// Whether `shown` is `text` as a terminal may be given it: as it is, or
/// in bold red, between the sequence that switches the style on and the one
/// that switches it off. Of a `text` that holds the second sequence itself,
/// the bold red form is only known to begin and end with the two.
pub open spec fn is_bold_red_or_plain(shown: Seq<char>, text: Seq<char>) -> bool {
    ||| shown == text
    ||| if contains_text(text, style_off()) {
        bold_red_on().len() + text.len() + style_off().len() <= shown.len()
            && bold_red_on().is_prefix_of(shown) && style_off().is_suffix_of(shown)
    } else {
        shown == bold_red_on() + text + style_off()
    }
}

/// `text` as `colored` renders it in bold red.
///
/// `colored::Colorize::red` and `bold` build a `ColoredString`, and its
/// `Display` decides by the environment and the terminal whether to colour.
/// It writes `text` as it is where it does not; where it does, it writes the
/// style sequence, `text` and the reset sequence. Inside a `text` that holds
/// reset sequences of its own it repeats the style behind each, which makes
/// what stands between the two sequences longer than `text`.
#[verifier::external_body]
fn bold_red(text: &str) -> (r: String)
    ensures
        is_bold_red_or_plain(r@, text@),
{
    text.red().bold().to_string()
}

impl InstallerError {
    /// The sentence that tells the error.
    pub fn message(&self) -> (r: String)
        ensures
            r@ == self.deep_view().message(),
    {
        match self {
            InstallerError::NotANumber => String::from_str("Invalid choice. Please try again."),
            InstallerError::InvalidNumber => String::from_str(
                "Invalid input. Please enter a number.",
            ),
            InstallerError::Init(detail) => joined(
                "Failed to initialize installer: ",
                detail.as_str(),
            ),
            InstallerError::Installation(detail) => joined("Installation failed: ", detail.as_str()),
            InstallerError::Unknown(detail) => joined("An error occurred: ", detail.as_str()),
        }
    }

    /// The error as it is shown on a terminal: marked, and in bold red where
    /// the terminal takes colours.
    pub fn format(&self) -> (r: String)
        ensures
            is_bold_red_or_plain(r@, self.deep_view().marked()),
    {
        let marked = joined("❌ ", self.message().as_str());
        bold_red(marked.as_str())
    }

    /// The error of an archive that could not be unpacked.
    pub fn zip(detail: &str) -> (r: InstallerError)
        ensures
            r.deep_view() == InstallerErrorView::Unknown("Zip error: "@ + detail@),
    {
        InstallerError::Unknown(joined("Zip error: ", detail))
    }
}

impl From<String> for InstallerError {
    fn from(detail: String) -> (r: InstallerError) {
        InstallerError::Installation(detail)
    }
}

impl vstd::std_specs::convert::FromSpecImpl<String> for InstallerError {
    open spec fn obeys_from_spec() -> bool {
        true
    }

    open spec fn from_spec(detail: String) -> InstallerError {
        InstallerError::Installation(detail)
    }
}

} // verus!
