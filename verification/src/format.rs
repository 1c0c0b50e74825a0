//! The format resolver: maps a source's declared format and, for `Auto`, a
//! file path's extension, to a concrete serialization format.

use vstd::prelude::*;

use crate::error::Error;
use crate::paths::name_start;

verus! {

/// Serialization format of a configuration source.
#[derive(Debug, Clone, Copy, PartialEq, Eq, Structural)]
pub enum Format {
    /// Detect the format from the file extension before parsing.
    Auto,
    /// JSON.
    Json,
    /// TOML.
    Toml,
    /// YAML.
    Yaml,
}

/// The index of the last `.` of a file name, if any.
pub open spec fn last_dot(name: Seq<char>) -> Option<int>
    decreases name.len(),
{
    if name.len() == 0 {
        Option::None
    } else if name.last() == '.' {
        Option::Some(name.len() - 1)
    } else {
        last_dot(name.drop_last())
    }
}

pub proof fn lemma_last_dot_bounds(name: Seq<char>)
    ensures
        last_dot(name) matches Option::Some(d) ==> 0 <= d < name.len(),
    decreases name.len(),
{
    if name.len() > 0 && name.last() != '.' {
        lemma_last_dot_bounds(name.drop_last());
    }
}

/// The extension of a path: the part of its file name after the last `.`,
/// unless the name has no `.` past its first character.
pub open spec fn extension_of(p: Seq<char>) -> Option<Seq<char>> {
    let name = p.subrange(name_start(p), p.len() as int);
    match last_dot(name) {
        Option::None => Option::None,
        Option::Some(d) => if d == 0 {
            Option::None
        } else {
            Option::Some(name.subrange(d + 1, name.len() as int))
        },
    }
}

/// The concrete format for a source declared with `format`, read from
/// `path` if the declaration was `Auto`: `.json`, `.toml` and `.yaml` map
/// to their formats, and any other extension, or none, is refused with the
/// extension found.
pub open spec fn resolve_format_spec(format: Format, path: Seq<char>) -> Result<
    Format,
    Option<Seq<char>>,
> {
    if !(format is Auto) {
        Result::Ok(format)
    } else {
        match extension_of(path) {
            Option::None => Result::Err(Option::None),
            Option::Some(e) => if e == "json"@ {
                Result::Ok(Format::Json)
            } else if e == "toml"@ {
                Result::Ok(Format::Toml)
            } else if e == "yaml"@ {
                Result::Ok(Format::Yaml)
            } else {
                Result::Err(Option::Some(e))
            },
        }
    }
}

/// The model of an optional extension string.
pub open spec fn opt_string_view(o: Option<String>) -> Option<Seq<char>> {
    match o {
        Option::Some(s) => Option::Some(s@),
        Option::None => Option::None,
    }
}

/// The index of the last `.` of the file name of `p`, counted from the
/// start of `p`, searching only at or after `from`.
fn find_last_dot(p: &String, from: usize) -> (r: Option<usize>)
    requires
        from <= p@.len(),
    ensures
        match last_dot(p@.subrange(from as int, p@.len() as int)) {
            Option::None => r is None,
            Option::Some(d) => r matches Option::Some(a) && a == d + from,
        },
{
    let n = p.as_str().unicode_len();
    let mut i = n;
    proof {
        assert(p@.subrange(from as int, n as int).subrange(0, (n - from) as int) =~= p@.subrange(
            from as int,
            n as int,
        ));
    }
    while i > from
        invariant
            from <= i <= n,
            n == p@.len(),
            last_dot(p@.subrange(from as int, n as int)) == last_dot(
                p@.subrange(from as int, n as int).subrange(0, i - from as int),
            ),
        decreases i,
    {
        let c = p.as_str().get_char(i - 1);
        proof {
            let whole = p@.subrange(from as int, n as int);
            let pre = whole.subrange(0, i - from as int);
            assert(pre.last() == p@[i - 1]);
            assert(pre.drop_last() =~= whole.subrange(0, i - 1 - from as int));
        }
        if c == '.' {
            return Option::Some(i - 1);
        }
        i = i - 1;
    }
    proof {
        assert(p@.subrange(from as int, n as int).subrange(0, 0) =~= Seq::<char>::empty());
    }
    Option::None
}

/// The concrete format for a source declared with `format`, read from the
/// extension of `path` if the declaration was `Auto`.
pub fn resolve_format(format: &Format, path: &String) -> (r: Result<Format, Error>)
    ensures
        r is Ok <==> resolve_format_spec(*format, path@) is Ok,
        r matches Result::Ok(g) ==> Result::<Format, Option<Seq<char>>>::Ok(g)
            == resolve_format_spec(*format, path@),
        r matches Result::Err(e) ==> e matches Error::UnknownExtension { extension }
            && Result::<Format, Option<Seq<char>>>::Err(opt_string_view(extension))
            == resolve_format_spec(*format, path@),
{
    match format {
        Format::Json => Result::Ok(Format::Json),
        Format::Toml => Result::Ok(Format::Toml),
        Format::Yaml => Result::Ok(Format::Yaml),
        Format::Auto => {
            let n = path.as_str().unicode_len();
            let ns = crate::paths::find_name_start(path);
            proof {
                crate::paths::lemma_name_start_bounds(path@);
            }
            let dp = find_last_dot(path, ns);
            proof {
                lemma_last_dot_bounds(path@.subrange(ns as int, path@.len() as int));
            }
            match dp {
                Option::None => Result::Err(Error::UnknownExtension { extension: Option::None }),
                Option::Some(a) => {
                    if a == ns {
                        Result::Err(Error::UnknownExtension { extension: Option::None })
                    } else {
                        let ext = path.as_str().substring_char(a + 1, n).to_owned();
                        proof {
                            let name = path@.subrange(ns as int, path@.len() as int);
                            let d = a - ns;
                            assert(ext@ =~= name.subrange(d + 1, name.len() as int));
                        }
                        if ext == String::from_str("json") {
                            Result::Ok(Format::Json)
                        } else if ext == String::from_str("toml") {
                            Result::Ok(Format::Toml)
                        } else if ext == String::from_str("yaml") {
                            Result::Ok(Format::Yaml)
                        } else {
                            Result::Err(Error::UnknownExtension { extension: Option::Some(ext) })
                        }
                    }
                },
            }
        },
    }
}

} // verus!
