use vstd::prelude::*;

verus! {

/// The failure taxonomy of the library.
///
/// Every operation that can fail reports one of these variants; the payload
/// carries the diagnostic detail (a path, a template name, or the raw text
/// reported by an external tool).
#[derive(Debug)]
pub enum TemplateError {
    /// A filesystem access failed.
    IoError(String),
    /// A `~` or environment-variable reference could not be resolved.
    ExpansionError(String),
    /// A template descriptor could not be parsed.
    CodecError(String),
    /// A required target directory or a requested template does not exist.
    NotFoundError(String),
    /// Authoring was attempted where a template descriptor already exists.
    AlreadyExistsError(String),
    /// The target path exists but is not a directory.
    InvalidTargetError(String),
    /// The external copy primitive reported a failure; the detail is carried
    /// verbatim.
    SyncError(String),
}

impl TemplateError {
    /// The diagnostic detail carried by this error.
    pub fn detail(&self) -> (r: &String)
        ensures
            r@ == self.detail_spec(),
    {
        match self {
            TemplateError::IoError(s) => s,
            TemplateError::ExpansionError(s) => s,
            TemplateError::CodecError(s) => s,
            TemplateError::NotFoundError(s) => s,
            TemplateError::AlreadyExistsError(s) => s,
            TemplateError::InvalidTargetError(s) => s,
            TemplateError::SyncError(s) => s,
        }
    }

    /// The detail string, at the specification level.
    pub open spec fn detail_spec(&self) -> Seq<char> {
        match self {
            TemplateError::IoError(s) => s@,
            TemplateError::ExpansionError(s) => s@,
            TemplateError::CodecError(s) => s@,
            TemplateError::NotFoundError(s) => s@,
            TemplateError::AlreadyExistsError(s) => s@,
            TemplateError::InvalidTargetError(s) => s@,
            TemplateError::SyncError(s) => s@,
        }
    }
}

} // verus!
