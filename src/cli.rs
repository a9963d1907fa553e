use vstd::prelude::*;

verus! {

/// What the command line asks for: a certificate file or URL, and how to
/// show it.
#[derive(Debug, Clone, PartialEq, Eq)]
pub struct Args {
    /// Certificate file path (PEM or DER).
    pub file: Option<String>,
    /// Certificate URL.
    pub url: Option<String>,
    /// Interactive mode.
    pub interactive: bool,
    /// Text output mode.
    pub text: bool,
}

impl Args {
    /// Whether the command line names something to inspect; without a file
    /// or a URL the help is shown instead.
    pub fn has_source(&self) -> (r: bool)
        ensures
            r == (self.file is Some || self.url is Some),
    {
        self.file.is_some() || self.url.is_some()
    }
}

} // verus!
