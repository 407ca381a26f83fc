use crate::output_mode::{default_string_prefix, OutputMode};
use vstd::prelude::*;

verus! {

/// Where the per-language message-source text is written.
#[derive(Debug, Clone, PartialEq, Eq)]
pub enum FtlOutputOptions {
    /// One blob holding every language, addressed by byte ranges.
    SingleFile {
        output_ftl_file: String,
        /// The name of a compressor for the written text, if any.
        compressor: Option<String>,
    },
    /// One file per language, named by language id, in a folder.
    MultiFile { output_ftl_folder: String, compressor: Option<String> },
}

impl Default for FtlOutputOptions {
    fn default() -> (r: Self)
        ensures
            r matches FtlOutputOptions::SingleFile { output_ftl_file, compressor }
                && output_ftl_file@ == seq!['s', 'r', 'c', '/', 'l', '1', '0', 'n', '.', 'f', 't', 'l']
                && compressor is None,
    {
        let output_ftl_file = String::from_str("src/l10n.ftl");
        proof {
            reveal_strlit("src/l10n.ftl");
        }
        FtlOutputOptions::SingleFile { output_ftl_file, compressor: None }
    }
}

/// The configuration of one build.
#[derive(Debug, Clone)]
pub struct BuildOptions {
    /// The folder holding one subfolder per language.
    pub locales_folder: String,
    /// Where the generated code is written.
    pub output_file_path: String,
    /// How the message-source text is written.
    pub ftl_output: FtlOutputOptions,
    /// The indentation of the generated code.
    pub indentation: String,
    /// The language whose messages define the accessors.
    pub default_language: String,
    /// Whether the generated code is run through a formatter.
    pub format: bool,
    /// Which accessors are generated, and their prefixes.
    pub output_mode: OutputMode,
    /// Whether a message id defined twice within one language is an error.
    pub deny_duplicate_keys: bool,
}

impl Default for BuildOptions {
    fn default() -> (r: Self)
        ensures
            r.locales_folder@ == seq!['l', 'o', 'c', 'a', 'l', 'e', 's'],
            r.output_file_path@ == seq!['s', 'r', 'c', '/', 'l', '1', '0', 'n', '.', 'r', 's'],
            r.ftl_output matches FtlOutputOptions::SingleFile { output_ftl_file, compressor }
                && output_ftl_file@ == seq!['s', 'r', 'c', '/', 'l', '1', '0', 'n', '.', 'f', 't', 'l']
                && compressor is None,
            r.indentation@ == seq![' ', ' ', ' ', ' '],
            r.default_language@ == seq!['e', 'n'],
            r.format,
            r.output_mode matches OutputMode::String { prefix } && prefix@ == default_string_prefix(),
            !r.deny_duplicate_keys,
    {
        let locales_folder = String::from_str("locales");
        let output_file_path = String::from_str("src/l10n.rs");
        let indentation = String::from_str("    ");
        let default_language = String::from_str("en");
        proof {
            reveal_strlit("locales");
            reveal_strlit("src/l10n.rs");
            reveal_strlit("    ");
            reveal_strlit("en");
        }
        BuildOptions {
            locales_folder,
            output_file_path,
            ftl_output: FtlOutputOptions::default(),
            indentation,
            default_language,
            format: true,
            output_mode: OutputMode::default(),
            deny_duplicate_keys: false,
        }
    }
}

impl BuildOptions {
    pub fn with_locales_folder(self, locales_folder: &str) -> (r: Self)
        ensures
            r == (BuildOptions { locales_folder: r.locales_folder, ..self }),
            r.locales_folder@ == locales_folder@,
    {
        BuildOptions { locales_folder: locales_folder.to_string(), ..self }
    }

    pub fn with_output_file_path(self, output_file_path: &str) -> (r: Self)
        ensures
            r == (BuildOptions { output_file_path: r.output_file_path, ..self }),
            r.output_file_path@ == output_file_path@,
    {
        BuildOptions { output_file_path: output_file_path.to_string(), ..self }
    }

    pub fn with_indentation(self, indentation: &str) -> (r: Self)
        ensures
            r == (BuildOptions { indentation: r.indentation, ..self }),
            r.indentation@ == indentation@,
    {
        BuildOptions { indentation: indentation.to_string(), ..self }
    }

    pub fn with_ftl_output(self, opts: FtlOutputOptions) -> (r: Self)
        ensures
            r == (BuildOptions { ftl_output: opts, ..self }),
    {
        BuildOptions { ftl_output: opts, ..self }
    }

    pub fn with_default_language(self, lang: &str) -> (r: Self)
        ensures
            r == (BuildOptions { default_language: r.default_language, ..self }),
            r.default_language@ == lang@,
    {
        BuildOptions { default_language: lang.to_string(), ..self }
    }

    pub fn without_format(self) -> (r: Self)
        ensures
            r == (BuildOptions { format: false, ..self }),
    {
        BuildOptions { format: false, ..self }
    }

    pub fn with_output_mode(self, mode: OutputMode) -> (r: Self)
        ensures
            r == (BuildOptions { output_mode: mode, ..self }),
    {
        BuildOptions { output_mode: mode, ..self }
    }

    pub fn with_deny_duplicate_keys(self) -> (r: Self)
        ensures
            r == (BuildOptions { deny_duplicate_keys: true, ..self }),
    {
        BuildOptions { deny_duplicate_keys: true, ..self }
    }

    /// Text-returning accessors only, with the given prefix.
    pub fn with_prefix(self, prefix: &str) -> (r: Self)
        ensures
            r == (BuildOptions { output_mode: r.output_mode, ..self }),
            r.output_mode matches OutputMode::String { prefix: p } && p@ == prefix@,
    {
        self.with_output_mode(OutputMode::String { prefix: prefix.to_string() })
    }
}

} // verus!
