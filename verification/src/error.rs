//! Why a build can fail before anything is written.

use vstd::prelude::*;
use vstd::string::StringExecFns;

verus! {

/// A failure of the build.
#[derive(Debug, PartialEq, Eq)]
pub enum BuildError {
    /// The training corpus holds no line to learn from.
    EmptyCorpus,
    /// The page template could not be compiled or rendered; the text is the
    /// template engine's own account of it.
    Render(String),
}

impl BuildError {
    /// The words `"empty training corpus"`.
    pub open spec fn empty_corpus_text() -> Seq<char> {
        "empty training corpus"@
    }

    /// The text prefixed to a template engine's account of a failure.
    pub open spec fn render_prefix() -> Seq<char> {
        "template error: "@
    }

    /// What went wrong, as text.
    pub open spec fn spec_message(&self) -> Seq<char> {
        match self {
            BuildError::EmptyCorpus => Self::empty_corpus_text(),
            BuildError::Render(detail) => Self::render_prefix() + detail@,
        }
    }

    /// What went wrong, as text.
    pub fn message(&self) -> (text: String)
        ensures
            text@ == self.spec_message(),
    {
        match self {
            BuildError::EmptyCorpus => "empty training corpus".to_owned(),
            BuildError::Render(detail) => {
                let mut text = "template error: ".to_owned();
                text.append(detail.as_str());
                text
            },
        }
    }
}

} // verus!
