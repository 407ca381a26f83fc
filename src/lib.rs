//! Compiles per-language message-source folders into packed text blobs and
//! accessor names, and resolves messages at run time.

pub mod analyzer;
pub mod build_options;
pub mod builder;
pub mod codegen;
pub mod error;
pub mod ftl;
pub mod l10n_bundle;
pub mod lang_bundle;
pub mod negotiate;
pub mod output_mode;
pub mod packer;
pub mod registry;
pub mod text;

pub use build_options::{BuildOptions, FtlOutputOptions};
pub use builder::{Builder, Generated};
pub use error::BuildError;
pub use l10n_bundle::L10nBundle;
pub use lang_bundle::{LangBundle, Message, SourceFile};
pub use negotiate::negotiate_languages;
pub use output_mode::OutputMode;
