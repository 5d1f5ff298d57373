//! Architecture gate: validates the requested target architecture against a
//! variant's declared support set before any other work begins.

use vstd::prelude::*;
use crate::errors::{clone_names, Error};
use crate::manifest::ManifestData;

verus! {

/// The views of a list of names.
pub open spec fn name_views(s: Seq<String>) -> Seq<Seq<char>> {
    s.map_values(|n: String| n@)
}

/// Whether `arch` is admitted: an absent support set admits every
/// architecture (open-world default), a present one admits exactly its
/// members.
pub open spec fn arch_accepted(supported: Option<Seq<String>>, arch: Seq<char>) -> bool {
    match supported {
        Option::None => true,
        Option::Some(s) => name_views(s).contains(arch),
    }
}

/// The declared support set of a manifest, as a sequence of names.
pub open spec fn declared_arches(m: ManifestData) -> Option<Seq<String>> {
    match m.supported_arches {
        Option::Some(s) => Option::Some(s@),
        Option::None => Option::None,
    }
}

/// Ensures the requested architecture is supported by the variant.  On
/// rejection the error names the requested value and the full supported
/// list; success has no side effect.
pub fn supported_arch(manifest: &ManifestData, arch: &String) -> (r: Result<(), Error>)
    ensures
        r is Ok <==> arch_accepted(declared_arches(*manifest), arch@),
        r matches Err(e) ==> (manifest.supported_arches matches Option::Some(s)
            && e matches Error::UnsupportedArch { arch: a, supported_arches: sa } && a == *arch
            && sa@ == s@),
{
    match manifest.supported_arches {
        Option::None => Result::Ok(()),
        Option::Some(ref s) => {
            let mut i: usize = 0;
            while i < s.len()
                invariant
                    declared_arches(*manifest) == Option::Some(s@),
                    i <= s.len(),
                    forall|j: int| 0 <= j < i ==> name_views(s@)[j] != arch@,
                decreases s.len() - i,
            {
                if s[i].eq(arch) {
                    proof {
                        let sd = declared_arches(*manifest)->0;
                        assert(name_views(sd)[i as int] == sd[i as int]@);
                        assert(name_views(sd).contains(arch@));
                    }
                    return Result::Ok(());
                }
                assert(name_views(s@)[i as int] == s@[i as int]@);
                i += 1;
            }
            assert(forall|j: int|
                0 <= j < name_views(s@).len() ==> name_views(s@)[j] != arch@);
            Result::Err(
                Error::UnsupportedArch {
                    arch: arch.clone(),
                    supported_arches: clone_names(s),
                },
            )
        },
    }
}

} // verus!
