//! Variant sensitivity: mapping a package's coarse declaration of dependency
//! on variant identity to the concrete environment variables to watch.

use vstd::prelude::*;

verus! {

/// The four specific aspects of variant identity a package may declare
/// sensitivity to.  A closed classification, not extensible at runtime.
#[derive(Debug, Clone, Copy, PartialEq, Eq, Structural)]
pub enum SensitivityType {
    Platform,
    Runtime,
    Family,
    Flavor,
}

/// A package's declared dependency on variant identity: either on the whole
/// identity (`Any(true)`), on nothing (`Any(false)`), or on one specific
/// aspect of it.
#[derive(Debug, Clone, Copy, PartialEq, Eq, Structural)]
pub enum VariantSensitivity {
    Any(bool),
    Specific(SensitivityType),
}

/// The environment variable watched for one specific sensitivity kind.
pub open spec fn specific_env_name(kind: SensitivityType) -> Seq<char> {
    match kind {
        SensitivityType::Platform => "BUILDSYS_VARIANT_PLATFORM"@,
        SensitivityType::Runtime => "BUILDSYS_VARIANT_RUNTIME"@,
        SensitivityType::Family => "BUILDSYS_VARIANT_FAMILY"@,
        SensitivityType::Flavor => "BUILDSYS_VARIANT_FLAVOR"@,
    }
}

/// The environment variables watched for a sensitivity declaration: none
/// when nothing is declared or sensitivity is declined, the generic
/// variant-identity variable for `Any(true)`, and exactly one kind-specific
/// variable for a `Specific` declaration.
pub open spec fn resolved_env_names(sensitivity: Option<VariantSensitivity>) -> Seq<Seq<char>> {
    match sensitivity {
        Option::None => Seq::empty(),
        Option::Some(VariantSensitivity::Any(false)) => Seq::empty(),
        Option::Some(VariantSensitivity::Any(true)) => seq!["BUILDSYS_VARIANT"@],
        Option::Some(VariantSensitivity::Specific(kind)) => seq![specific_env_name(kind)],
    }
}

/// Resolves a sensitivity declaration to the environment-variable names to
/// watch.  Total and pure: every input maps to one fixed output.
pub fn resolve(sensitivity: Option<VariantSensitivity>) -> (r: Vec<String>)
    ensures
        r@.map_values(|s: String| s@) == resolved_env_names(sensitivity),
{
    let mut r: Vec<String> = Vec::new();
    match sensitivity {
        Option::None => (),
        Option::Some(VariantSensitivity::Any(false)) => (),
        Option::Some(VariantSensitivity::Any(true)) => {
            r.push("BUILDSYS_VARIANT".to_owned());
        },
        Option::Some(VariantSensitivity::Specific(kind)) => {
            let name = match kind {
                SensitivityType::Platform => "BUILDSYS_VARIANT_PLATFORM",
                SensitivityType::Runtime => "BUILDSYS_VARIANT_RUNTIME",
                SensitivityType::Family => "BUILDSYS_VARIANT_FAMILY",
                SensitivityType::Flavor => "BUILDSYS_VARIANT_FLAVOR",
            };
            r.push(name.to_owned());
        },
    }
    proof {
        assert(r@.map_values(|s: String| s@) =~= resolved_env_names(sensitivity));
    }
    r
}

} // verus!
