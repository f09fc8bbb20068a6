use crate::exporters::ExportError;
use crate::text::reads;
use vstd::prelude::*;

verus! {

/// The format that the activity is exported in.
#[derive(Copy, Clone, Debug, PartialEq, Eq, Structural)]
pub enum OutputFormat {
    Tcl,
    Saif,
}

/// The text `s` in lower case, as `str::to_lowercase` gives it.
pub uninterp spec fn lowercase(s: Seq<char>) -> Seq<char>;

/// `str::to_lowercase`: the lowercase equivalent of the string, by the rules of Unicode.
/// The contract only gives the result its name.
#[verifier::external_body]
fn to_lowercase(s: &str) -> (lower: String)
    ensures
        lower@ == lowercase(s@),
{
    s.to_lowercase()
}

impl OutputFormat {
    /// The format that the lowercase name `lower` stands for.
    pub open spec fn named(lower: Seq<char>) -> Result<OutputFormat, ExportError> {
        if lower == "tcl"@ {
            Ok(OutputFormat::Tcl)
        } else if lower == "saif"@ {
            Ok(OutputFormat::Saif)
        } else {
            Err(ExportError::UnknownFormat)
        }
    }

    /// The format called `lower`: `tcl` or `saif`. Any other name is `UnknownFormat`.
    pub fn from_lowercase(lower: &str) -> (format: Result<OutputFormat, ExportError>)
        ensures
            format == OutputFormat::named(lower@),
    {
        let name = lower.to_owned();
        if reads(&name, "tcl") {
            Ok(OutputFormat::Tcl)
        } else if reads(&name, "saif") {
            Ok(OutputFormat::Saif)
        } else {
            Err(ExportError::UnknownFormat)
        }
    }

    /// The format called `s`, in whatever case it is written.
    pub fn from_str(s: &str) -> (format: Result<OutputFormat, ExportError>)
        ensures
            format == OutputFormat::named(lowercase(s@)),
    {
        let lower = to_lowercase(s);
        OutputFormat::from_lowercase(lower.as_str())
    }
}

} // verus!
