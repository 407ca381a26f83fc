use vstd::prelude::*;

verus! {

#[verifier::external_type_specification]
#[verifier::external_body]
pub struct ExIoError(std::io::Error);

/// Why a build failed.
#[derive(Debug)]
#[allow(inconsistent_fields)]
pub enum BuildError {
    /// A message-source text did not parse; holds the file and the parser's
    /// diagnostics.
    FtlParse(String),
    /// Reading an input failed.
    Io(std::io::Error),
    /// A message id was defined a second time within one language.
    DuplicateKey { key: String, original: String, duplicate: String },
    /// Loading one language folder failed.
    LocalesFolder { folder: String, source: Box<BuildError> },
    /// Writing a generated file failed.
    WriteOutput { path: String, source: std::io::Error },
    /// The formatter of the generated code failed.
    Rustfmt(String),
    /// The languages loaded do not allow generation.
    Generation(String),
}

/// The error that caused a build error.
#[derive(Debug)]
pub enum ErrorSource<'a> {
    Io(&'a std::io::Error),
    Build(&'a BuildError),
}

/// Relies on `io::Error`'s `Display`: the text of an I/O error.
#[verifier::external_body]
fn io_error_text(e: &std::io::Error) -> String {
    e.to_string()
}

impl BuildError {
    /// The text that describes the error, where it holds no I/O error, whose
    /// text comes from the system.
    pub open spec fn text(&self) -> Option<Seq<char>>
        decreases self,
    {
        match self {
            BuildError::FtlParse(m) => Some("Could not parse ftl: "@ + m@),
            BuildError::Io(_) => None,
            BuildError::DuplicateKey { key, original, duplicate } => Some("Duplicate message key '"@
                + key@ + "' in '"@ + duplicate@ + "', first defined in '"@ + original@ + "'"@),
            BuildError::LocalesFolder { folder, source } => match source.text() {
                Some(t) => Some("Could not read locales folder '"@ + folder@ + "': "@ + t),
                None => None,
            },
            BuildError::WriteOutput { .. } => None,
            BuildError::Rustfmt(m) => Some("Rustfmt error: "@ + m@),
            BuildError::Generation(m) => Some(m@),
        }
    }

    /// The text that describes the error.
    pub fn message(&self) -> (r: String)
        ensures
            self.text() matches Some(t) ==> r@ == t,
            self matches BuildError::WriteOutput { path, .. } ==> r@.take(
                path@.len() + 25int,
            ) == "Could not write file '"@ + path@ + "': "@,
        decreases self,
    {
        match self {
            BuildError::FtlParse(m) => {
                let mut r = String::from_str("Could not parse ftl: ");
                r.append(m.as_str());
                r
            },
            BuildError::Io(e) => io_error_text(e),
            BuildError::DuplicateKey { key, original, duplicate } => {
                let mut r = String::from_str("Duplicate message key '");
                r.append(key.as_str());
                r.append("' in '");
                r.append(duplicate.as_str());
                r.append("', first defined in '");
                r.append(original.as_str());
                r.append("'");
                r
            },
            BuildError::LocalesFolder { folder, source } => {
                let mut r = String::from_str("Could not read locales folder '");
                r.append(folder.as_str());
                r.append("': ");
                let inner = source.message();
                r.append(inner.as_str());
                r
            },
            BuildError::WriteOutput { path, source } => {
                let mut r = String::from_str("Could not write file '");
                r.append(path.as_str());
                r.append("': ");
                let ghost head = r@;
                proof {
                    reveal_strlit("Could not write file '");
                    reveal_strlit("': ");
                }
                let inner = io_error_text(source);
                r.append(inner.as_str());
                assert(r@.take(path@.len() + 25int) =~= head);
                r
            },
            BuildError::Rustfmt(m) => {
                let mut r = String::from_str("Rustfmt error: ");
                r.append(m.as_str());
                r
            },
            BuildError::Generation(m) => m.clone(),
        }
    }

    /// The error that caused this one, if any: the I/O error or the failure
    /// within a language folder.
    pub fn source(&self) -> (r: Option<ErrorSource<'_>>)
        ensures
            match self {
                BuildError::Io(e) => r == Some(ErrorSource::Io(e)),
                BuildError::WriteOutput { source, .. } => r == Some(ErrorSource::Io(source)),
                BuildError::LocalesFolder { source, .. } => r == Some(ErrorSource::Build(&**source)),
                _ => r is None,
            },
    {
        match self {
            BuildError::Io(e) => Some(ErrorSource::Io(e)),
            BuildError::WriteOutput { source, .. } => Some(ErrorSource::Io(source)),
            BuildError::LocalesFolder { source, .. } => Some(ErrorSource::Build(&**source)),
            _ => None,
        }
    }
}

} // verus!
