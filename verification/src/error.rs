//! Configuration sources and the error taxonomy of the resolution engine.

use vstd::prelude::*;

use crate::format::Format;

verus! {

/// The origin of one layer's data.
#[derive(Debug, PartialEq)]
pub enum Source {
    /// A file that must exist.
    File {
        /// File path, absolute or relative to the layer's working directory.
        path: String,
        /// Declared format.
        format: Format,
    },
    /// A file whose absence contributes an empty layer instead of an error.
    FileOptional {
        /// File path, absolute or relative to the layer's working directory.
        path: String,
        /// Declared format.
        format: Format,
    },
    /// In-memory text; its format must be concrete, never `Auto`.
    StringLiteral {
        /// The text to parse.
        content: String,
        /// Declared format.
        format: Format,
    },
    /// Process environment; reserved, not loaded by the engine.
    Environment {
        /// Optional variable-name prefix.
        prefix: Option<String>,
    },
    /// The process's own command-line arguments, through the argument
    /// capability.
    Arguments,
    /// A supplied argument list, through the argument capability.
    ArgumentsFrom(Vec<String>),
}

/// Mathematical model of a [`Source`].
pub enum SourceV {
    /// A file that must exist.
    File {
        /// File path.
        path: Seq<char>,
        /// Declared format.
        format: Format,
    },
    /// A file whose absence is tolerated.
    FileOptional {
        /// File path.
        path: Seq<char>,
        /// Declared format.
        format: Format,
    },
    /// In-memory text.
    StringLiteral {
        /// The text to parse.
        content: Seq<char>,
        /// Declared format.
        format: Format,
    },
    /// Process environment; reserved.
    Environment {
        /// Optional variable-name prefix.
        prefix: Option<Seq<char>>,
    },
    /// The process's own command-line arguments.
    Arguments,
    /// A supplied argument list.
    ArgumentsFrom(Seq<Seq<char>>),
}

pub open spec fn source_view(s: Source) -> SourceV {
    match s {
        Source::File { path, format } => SourceV::File { path: path@, format },
        Source::FileOptional { path, format } => SourceV::FileOptional { path: path@, format },
        Source::StringLiteral { content, format } => SourceV::StringLiteral {
            content: content@,
            format,
        },
        Source::Environment { prefix } => SourceV::Environment {
            prefix: match prefix {
                Option::Some(p) => Option::Some(p@),
                Option::None => Option::None,
            },
        },
        Source::Arguments => SourceV::Arguments,
        Source::ArgumentsFrom(args) => SourceV::ArgumentsFrom(crate::model::strings_view(args@)),
    }
}

impl View for Source {
    type V = SourceV;

    open spec fn view(&self) -> SourceV {
        source_view(*self)
    }
}

impl Source {
    /// A structurally equal copy, proved to keep the source's model.
    pub fn duplicate(&self) -> (r: Source)
        ensures
            r@ == self@,
    {
        match self {
            Source::File { path, format } => Source::File { path: path.clone(), format: *format },
            Source::FileOptional { path, format } => Source::FileOptional {
                path: path.clone(),
                format: *format,
            },
            Source::StringLiteral { content, format } => Source::StringLiteral {
                content: content.clone(),
                format: *format,
            },
            Source::Environment { prefix } => Source::Environment {
                prefix: match prefix {
                    Option::Some(p) => Option::Some(p.clone()),
                    Option::None => Option::None,
                },
            },
            Source::Arguments => Source::Arguments,
            Source::ArgumentsFrom(args) => Source::ArgumentsFrom(duplicate_strings(args)),
        }
    }
}

/// A copy of a string vector, proved to keep its models.
pub fn duplicate_strings(v: &Vec<String>) -> (r: Vec<String>)
    ensures
        crate::model::strings_view(r@) == crate::model::strings_view(v@),
{
    let mut out: Vec<String> = Vec::new();
    let n = v.len();
    for k in 0..n
        invariant
            n == v.len(),
            out.len() == k,
            forall|j: int| 0 <= j < k ==> out@[j]@ == v@[j]@,
    {
        out.push(v[k].clone());
    }
    proof {
        assert(crate::model::strings_view(out@) =~= crate::model::strings_view(v@));
    }
    out
}

/// The models of a sequence of sources.
pub open spec fn sources_view(v: Seq<Source>) -> Seq<SourceV> {
    Seq::new(v.len(), |i: int| v[i]@)
}

/// A copy of a source vector, proved to keep its models.
pub fn duplicate_sources(v: &Vec<Source>) -> (r: Vec<Source>)
    ensures
        sources_view(r@) == sources_view(v@),
{
    let mut out: Vec<Source> = Vec::new();
    let n = v.len();
    for k in 0..n
        invariant
            n == v.len(),
            out.len() == k,
            forall|j: int| 0 <= j < k ==> out@[j]@ == v@[j]@,
    {
        out.push(v[k].duplicate());
    }
    proof {
        assert(sources_view(out@) =~= sources_view(v@));
    }
    out
}

/// Everything that can go wrong while loading, merging and validating a
/// layered configuration.  Every failure aborts the resolution pass and is
/// reported through exactly one of these.
#[derive(Debug, PartialEq)]
pub enum Error {
    /// The merged configuration leaves required fields unset; every such
    /// field is named, in shape order.
    SolidifyFailedMissing {
        /// The unset required fields.
        missing: Vec<String>,
    },
    /// Solidify was asked of a builder that holds no layers at all.
    SolidifyFailedNoLayers,
    /// `Auto` format resolution met a file extension that names no format.
    UnknownExtension {
        /// The extension found, if the path had one.
        extension: Option<String>,
    },
    /// `Auto` format was declared where no file path can resolve it.
    AutoFormatFailed,
    /// A canonical file path was reached twice within one resolution pass.
    LoopingLoadConfig {
        /// The path that closed the cycle.
        path: String,
        /// The sources of the layer's ancestors, nearest first.
        parents: Vec<Source>,
    },
    /// Path canonicalization failed for a reason other than absence.
    PathCanonicalization {
        /// The path that failed.
        path: String,
        /// The capability's diagnostic.
        message: String,
    },
    /// A required file does not exist.
    FileNotFound {
        /// The path that failed.
        path: String,
    },
    /// Reading a file failed for a reason other than absence.
    IoError {
        /// The path that failed.
        path: String,
        /// The capability's diagnostic.
        message: String,
    },
    /// A JSON document could not be parsed, or does not fit the shape.
    JsonError {
        /// The diagnostic, or the offending field.
        message: String,
    },
    /// A TOML document could not be parsed, or does not fit the shape.
    TomlError {
        /// The diagnostic, or the offending field.
        message: String,
    },
    /// A YAML document could not be parsed, or does not fit the shape.
    YamlError {
        /// The diagnostic, or the offending field.
        message: String,
    },
}

/// Mathematical model of an [`Error`].
pub enum ErrorV {
    /// The merged configuration leaves required fields unset.
    SolidifyFailedMissing {
        /// The unset required fields.
        missing: Seq<Seq<char>>,
    },
    /// Solidify was asked of a builder without layers.
    SolidifyFailedNoLayers,
    /// A file extension that names no format.
    UnknownExtension {
        /// The extension found, if any.
        extension: Option<Seq<char>>,
    },
    /// `Auto` format where no file path can resolve it.
    AutoFormatFailed,
    /// A canonical file path reached twice within one pass.
    LoopingLoadConfig {
        /// The path that closed the cycle.
        path: Seq<char>,
        /// The sources of the layer's ancestors, nearest first.
        parents: Seq<SourceV>,
    },
    /// Path canonicalization failed.
    PathCanonicalization {
        /// The path that failed.
        path: Seq<char>,
        /// The capability's diagnostic.
        message: Seq<char>,
    },
    /// A required file does not exist.
    FileNotFound {
        /// The path that failed.
        path: Seq<char>,
    },
    /// Reading a file failed.
    IoError {
        /// The path that failed.
        path: Seq<char>,
        /// The capability's diagnostic.
        message: Seq<char>,
    },
    /// A JSON document was refused.
    JsonError {
        /// The diagnostic, or the offending field.
        message: Seq<char>,
    },
    /// A TOML document was refused.
    TomlError {
        /// The diagnostic, or the offending field.
        message: Seq<char>,
    },
    /// A YAML document was refused.
    YamlError {
        /// The diagnostic, or the offending field.
        message: Seq<char>,
    },
}

pub open spec fn error_view(e: Error) -> ErrorV {
    match e {
        Error::SolidifyFailedMissing { missing } => ErrorV::SolidifyFailedMissing {
            missing: crate::model::strings_view(missing@),
        },
        Error::SolidifyFailedNoLayers => ErrorV::SolidifyFailedNoLayers,
        Error::UnknownExtension { extension } => ErrorV::UnknownExtension {
            extension: crate::format::opt_string_view(extension),
        },
        Error::AutoFormatFailed => ErrorV::AutoFormatFailed,
        Error::LoopingLoadConfig { path, parents } => ErrorV::LoopingLoadConfig {
            path: path@,
            parents: sources_view(parents@),
        },
        Error::PathCanonicalization { path, message } => ErrorV::PathCanonicalization {
            path: path@,
            message: message@,
        },
        Error::FileNotFound { path } => ErrorV::FileNotFound { path: path@ },
        Error::IoError { path, message } => ErrorV::IoError { path: path@, message: message@ },
        Error::JsonError { message } => ErrorV::JsonError { message: message@ },
        Error::TomlError { message } => ErrorV::TomlError { message: message@ },
        Error::YamlError { message } => ErrorV::YamlError { message: message@ },
    }
}

impl View for Error {
    type V = ErrorV;

    open spec fn view(&self) -> ErrorV {
        error_view(*self)
    }
}

} // verus!
