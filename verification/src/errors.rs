//! Errors of the core.  Every failure terminates the pipeline; each value
//! carries the context a caller needs to print one human-readable line.

use vstd::prelude::*;
use vstd::string::StringExecFns;

verus! {

/// Sequences of characters joined with a separator, in order.
pub open spec fn joined(parts: Seq<Seq<char>>, sep: Seq<char>) -> Seq<char>
    decreases parts.len(),
{
    if parts.len() == 0 {
        Seq::empty()
    } else if parts.len() == 1 {
        parts[0]
    } else {
        joined(parts.drop_last(), sep) + sep + parts.last()
    }
}

/// An error of the invalidation and negotiation core.  Failures of
/// collaborators (manifest parsing, fetching, container builds) and plain
/// I/O failures are reported by the surrounding program, not here.
#[derive(Debug, Clone, PartialEq, Eq)]
pub enum Error {
    /// The requested architecture is not in the variant's declared support
    /// set.  Terminal and non-retryable.
    UnsupportedArch { arch: String, supported_arches: Vec<String> },
    /// A defaults fragment is not a valid configuration document; `name`
    /// identifies the offending file.
    FragmentParse { name: String },
    /// The merged defaults document could not be serialized.
    DefaultsSerialize,
}

impl Error {
    /// The one human-readable line describing this error.
    pub open spec fn message(self) -> Seq<char> {
        match self {
            Error::UnsupportedArch { arch, supported_arches } => "Unsupported architecture "@
                + arch@ + ", this variant supports "@ + joined(
                supported_arches@.map_values(|s: String| s@),
                ", "@,
            ),
            Error::FragmentParse { name } => name@ + " is not valid TOML"@,
            Error::DefaultsSerialize => "Failed to serialize default settings"@,
        }
    }

    /// Renders the error as its one-line description.
    pub fn describe(&self) -> (r: String)
        ensures
            r@ == self.message(),
    {
        match self {
            Error::UnsupportedArch { arch, supported_arches } => {
                let list = join_names(supported_arches, ", ");
                String::from_str("Unsupported architecture ").concat(arch.as_str()).concat(
                    ", this variant supports ",
                ).concat(list.as_str())
            },
            Error::FragmentParse { name } => name.clone().concat(" is not valid TOML"),
            Error::DefaultsSerialize => String::from_str("Failed to serialize default settings"),
        }
    }
}

/// Joins names with a separator, in order.
pub fn join_names(parts: &Vec<String>, sep: &str) -> (r: String)
    ensures
        r@ == joined(parts@.map_values(|s: String| s@), sep@),
{
    let ghost views = parts@.map_values(|s: String| s@);
    let mut r = String::new();
    let mut i: usize = 0;
    while i < parts.len()
        invariant
            i <= parts.len(),
            views == parts@.map_values(|s: String| s@),
            r@ == joined(views.subrange(0, i as int), sep@),
        decreases parts.len() - i,
    {
        if i > 0 {
            r.append(sep);
        }
        r.append(parts[i].as_str());
        proof {
            let pre = views.subrange(0, i as int);
            let now = views.subrange(0, i + 1 as int);
            assert(now.drop_last() =~= pre);
            assert(now.last() == views[i as int]);
            if i == 0 {
                assert(r@ =~= joined(now, sep@));
            }
        }
        i += 1;
    }
    proof {
        assert(views.subrange(0, views.len() as int) =~= views);
    }
    r
}

/// Copies a list of names; the copy holds the same values.
pub fn clone_names(v: &Vec<String>) -> (r: Vec<String>)
    ensures
        r@ == v@,
{
    let mut r: Vec<String> = Vec::new();
    let mut i: usize = 0;
    while i < v.len()
        invariant
            i <= v.len(),
            r@ =~= v@.subrange(0, i as int),
        decreases v.len() - i,
    {
        r.push(v[i].clone());
        i += 1;
    }
    proof {
        assert(v@.subrange(0, v@.len() as int) =~= v@);
    }
    r
}

} // verus!
