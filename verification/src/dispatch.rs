//! The build request dispatcher: the two terminal pipelines (package build
//! and variant build) as pure decisions over manifest data, producing a
//! plan for the surrounding program to carry out and the dependency
//! signals owed along the way.

use vstd::prelude::*;
use vstd::string::StringExecFns;
use crate::arch::{arch_accepted, declared_arches, supported_arch};
use crate::defaults::{
    all_parse, frag_models, frags_sorted, lemma_all_parse_multiset, lemma_parse_witness_transfers,
    merge_fragments, merged_result, parse_failure_named, rendered_doc, select_fragments,
    toml_named, Fragment,
};
use crate::errors::Error;
use crate::features::{
    emit_feature_signals, feature_map_views, feature_signal_models, feature_views, negotiate,
    spec_negotiate, tracked_set_views,
};
use crate::manifest::{BundleModule, ExternalFile, ManifestData};
use crate::sensitivity::{resolve, resolved_env_names};
use crate::signals::{signal_models, DependencySignal, SignalModel, SignalSink};

verus! {

/// Everything the variant pipeline reads: the variant's manifest, the
/// requested architecture, the build root, and the listing of the
/// defaults directory (each child's file name and text), empty when the
/// manifest declares no defaults directory.
pub struct VariantInput {
    pub manifest: ManifestData,
    pub arch: String,
    pub root_dir: String,
    pub defaults_listing: Vec<Fragment>,
}

/// The canonical defaults artifact to write, with the ordered fragments it
/// was folded from.
pub struct DefaultsArtifact {
    pub path: String,
    pub content: String,
    pub fragments: Vec<Fragment>,
}

/// What the variant pipeline decided: the defaults artifact to write (if a
/// defaults directory is declared), whether to hand the request to the
/// container backend, and the warning to surface instead when the variant
/// includes no packages.
pub struct VariantPlan {
    pub defaults: Option<DefaultsArtifact>,
    pub build: bool,
    pub skip_warning: Option<String>,
}

/// The watch signals owed for the selected defaults fragments: one file
/// watch per fragment, under the defaults directory, in merge order.
pub open spec fn fragment_signal_models(dir: Seq<char>, sel: Seq<(Seq<char>, Seq<char>)>) -> Seq<
    SignalModel,
> {
    sel.map_values(|p: (Seq<char>, Seq<char>)| SignalModel::FileChanged(dir + "/"@ + p.0))
}

/// On the failing path the watches already owed stand in the stream: one
/// file watch per fragment the listing selects, in sorted order, appended
/// after `base`.
pub open spec fn defaults_watches_emitted(
    dir: Seq<char>,
    listing: Seq<Fragment>,
    base: Seq<SignalModel>,
    now: Seq<SignalModel>,
) -> bool {
    exists|sel: Seq<(Seq<char>, Seq<char>)>|
        #[trigger] frags_sorted(sel) && sel.to_multiset() == toml_named(
            frag_models(listing),
        ).to_multiset() && now == base + fragment_signal_models(dir, sel)
}

/// Whether a defaults artifact is what the listing owes: its fragments are
/// the listing's configuration files in ascending name order, they all
/// parse, and its content renders their fold.
pub open spec fn defaults_artifact_matches(
    a: DefaultsArtifact,
    dir: Seq<char>,
    listing: Seq<Fragment>,
    root_dir: Seq<char>,
) -> bool {
    &&& frags_sorted(frag_models(a.fragments@))
    &&& frag_models(a.fragments@).to_multiset() == toml_named(frag_models(listing)).to_multiset()
    &&& all_parse(frag_models(a.fragments@))
    &&& a.content@ == rendered_doc(merged_result(frag_models(a.fragments@)))
    &&& a.path@ == root_dir + "/build/tools/defaults.toml"@
}

/// Merges the variant's default-settings fragments into a single document
/// and plans its write to the canonical path under the build root.  A
/// variant without a defaults directory owes nothing.  The step succeeds
/// exactly when every selected fragment is valid configuration text, and
/// every selected fragment's path is signalled even on failure, since
/// every one was read.
pub fn generate_defaults_toml(
    defaults_dir: &Option<String>,
    listing: Vec<Fragment>,
    root_dir: &String,
    sink: &mut SignalSink,
) -> (r: Result<Option<DefaultsArtifact>, Error>)
    ensures
        defaults_dir is None ==> (r matches Ok(a) && a is None && final(sink).signals@ == old(
            sink,
        ).signals@),
        defaults_dir matches Some(dir) ==> {
            &&& r is Ok <==> all_parse(toml_named(frag_models(listing@)))
            &&& r matches Ok(Some(a)) ==> {
                &&& defaults_artifact_matches(a, dir@, listing@, root_dir@)
                &&& signal_models(final(sink).signals@) == signal_models(old(sink).signals@)
                    + fragment_signal_models(dir@, frag_models(a.fragments@))
            }
            &&& r matches Err(e) ==> parse_failure_named(listing@, e)
            &&& r is Err ==> defaults_watches_emitted(
                dir@,
                listing@,
                signal_models(old(sink).signals@),
                signal_models(final(sink).signals@),
            )
            &&& r matches Ok(a) ==> a is Some
        },
{
    match defaults_dir {
        Option::None => Result::Ok(Option::None),
        Option::Some(dir) => {
            let selected = select_fragments(listing);
            let ghost sel = frag_models(selected@);
            let mut i: usize = 0;
            while i < selected.len()
                invariant
                    defaults_dir matches Some(d) && d@ == dir@,
                    sel == frag_models(selected@),
                    i <= selected@.len(),
                    signal_models(sink.signals@) == signal_models(old(sink).signals@)
                        + fragment_signal_models(dir@, sel.subrange(0, i as int)),
                decreases selected@.len() - i,
            {
                let path = dir.clone().concat("/").concat(selected[i].name.as_str());
                let ghost before = sink.signals@;
                sink.emit(DependencySignal::FileChanged(path));
                proof {
                    assert(sel[i as int] == (selected@[i as int].name@, selected@[
                        i as int
                    ].content@));
                    assert(fragment_signal_models(dir@, sel.subrange(0, i + 1 as int))
                        =~= fragment_signal_models(dir@, sel.subrange(0, i as int)).push(
                        SignalModel::FileChanged(dir@ + "/"@ + sel[i as int].0),
                    ));
                    assert(signal_models(sink.signals@) =~= signal_models(before).push(
                        SignalModel::FileChanged(dir@ + "/"@ + sel[i as int].0),
                    ));
                    assert(signal_models(sink.signals@) =~= signal_models(old(sink).signals@)
                        + fragment_signal_models(dir@, sel.subrange(0, i + 1 as int)));
                }
                i += 1;
            }
            proof {
                assert(sel.subrange(0, sel.len() as int) =~= sel);
            }
            let merged = merge_fragments(&selected);
            proof {
                lemma_all_parse_multiset(
                    frag_models(selected@),
                    toml_named(frag_models(listing@)),
                );
            }
            let content = match merged {
                Result::Ok(c) => c,
                Result::Err(e) => {
                    proof {
                        lemma_parse_witness_transfers(selected@, listing@, e);
                        assert(frags_sorted(frag_models(selected@)));
                        assert(signal_models(sink.signals@) == signal_models(old(sink).signals@)
                            + fragment_signal_models(dir@, frag_models(selected@)));
                    }
                    return Result::Err(e);
                },
            };
            let path = root_dir.clone().concat("/build/tools/defaults.toml");
            Result::Ok(
                Option::Some(DefaultsArtifact { path, content, fragments: selected }),
            )
        },
    }
}

/// The manifest-file watch every pipeline owes first.
pub open spec fn manifest_signal() -> SignalModel {
    SignalModel::FileChanged("Cargo.toml"@)
}

/// Whether `e` is the rejection the architecture gate owes under manifest
/// `m` for the requested `arch`.
pub open spec fn unsupported_arch_error(m: ManifestData, arch: String, e: Error) -> bool {
    &&& m.supported_arches matches Some(s) && e matches Error::UnsupportedArch {
        arch: a,
        supported_arches: sa,
    } && a == arch && sa@ == s@
}

/// Whether the defaults step of a variant input cannot fail: no defaults
/// directory is declared, or every fragment the listing selects is valid
/// configuration text.
pub open spec fn variant_defaults_ok(input: VariantInput) -> bool {
    input.manifest.defaults_dir is None || all_parse(
        toml_named(frag_models(input.defaults_listing@)),
    )
}

/// Whether a variant plan is what the input owes: build exactly when the
/// manifest includes packages, the skip warning exactly otherwise, and the
/// defaults artifact exactly when a defaults directory is declared.
pub open spec fn variant_plan_matches(
    input: VariantInput,
    p: VariantPlan,
    sig_old: Seq<DependencySignal>,
    sig_new: Seq<DependencySignal>,
) -> bool {
    &&& p.build == (input.manifest.included_packages is Some)
    &&& p.build ==> p.skip_warning is None
    &&& !p.build ==> (p.skip_warning matches Some(w) && w@
        == "cargo:warning=No included packages in manifest. Skipping variant build."@)
    &&& input.manifest.defaults_dir is None ==> (p.defaults is None && signal_models(sig_new)
        == signal_models(sig_old).push(manifest_signal()))
    &&& input.manifest.defaults_dir matches Some(dir) ==> (p.defaults matches Some(a)
        && defaults_artifact_matches(a, dir@, input.defaults_listing@, input.root_dir@)
        && signal_models(sig_new) == signal_models(sig_old).push(manifest_signal())
        + fragment_signal_models(dir@, frag_models(a.fragments@)))
}

/// The variant pipeline: manifest signal, architecture gate, defaults
/// aggregation — run to completion even when the build is skipped, since
/// other tooling consumes the defaults artifact independently — and the
/// decision whether to hand the request to the container backend.  A
/// variant with no included packages is valid and intentionally builds
/// nothing, surfacing a non-fatal warning instead.  The pipeline succeeds
/// exactly when the architecture is accepted and the defaults step cannot
/// fail.
pub fn build_variant(input: VariantInput, sink: &mut SignalSink) -> (r: Result<VariantPlan, Error>)
    ensures
        r is Ok <==> (arch_accepted(declared_arches(input.manifest), input.arch@)
            && variant_defaults_ok(input)),
        !arch_accepted(declared_arches(input.manifest), input.arch@) ==> (r matches Err(e)
            && unsupported_arch_error(input.manifest, input.arch, e) && signal_models(
            final(sink).signals@,
        ) == signal_models(old(sink).signals@).push(manifest_signal())),
        r matches Err(e) ==> ((e is UnsupportedArch) == !arch_accepted(
            declared_arches(input.manifest),
            input.arch@,
        )),
        r matches Err(e) ==> (e is UnsupportedArch || (parse_failure_named(
            input.defaults_listing@,
            e,
        ) && input.manifest.defaults_dir is Some && (input.manifest.defaults_dir matches Some(dir)
            ==> defaults_watches_emitted(
            dir@,
            input.defaults_listing@,
            signal_models(old(sink).signals@).push(manifest_signal()),
            signal_models(final(sink).signals@),
        )))),
        r matches Ok(p) ==> (arch_accepted(declared_arches(input.manifest), input.arch@)
            && variant_plan_matches(input, p, old(sink).signals@, final(sink).signals@)),
{
    let VariantInput { manifest, arch, root_dir, defaults_listing } = input;
    let ghost sig0 = sink.signals@;
    sink.emit(DependencySignal::FileChanged(String::from_str("Cargo.toml")));
    proof {
        assert(signal_models(sink.signals@) =~= signal_models(sig0).push(manifest_signal()));
    }
    match supported_arch(&manifest, &arch) {
        Result::Ok(()) => {},
        Result::Err(e) => {
            return Result::Err(e);
        },
    }
    let ghost sig1 = sink.signals@;
    let defaults = match generate_defaults_toml(
        &manifest.defaults_dir,
        defaults_listing,
        &root_dir,
        sink,
    ) {
        Result::Ok(a) => a,
        Result::Err(e) => {
            return Result::Err(e);
        },
    };
    let build = manifest.included_packages.is_some();
    let skip_warning = if build {
        Option::None
    } else {
        Option::Some(
            String::from_str("cargo:warning=No included packages in manifest. Skipping variant build."),
        )
    };
    proof {
        assert(signal_models(sig1) =~= signal_models(sig0).push(manifest_signal()));
        if manifest.defaults_dir is Some {
            let dir = manifest.defaults_dir->0;
            assert(signal_models(sink.signals@) == signal_models(sig1) + fragment_signal_models(
                dir@,
                frag_models((defaults->0).fragments@),
            ));
        }
    }
    Result::Ok(VariantPlan { defaults, build, skip_warning })
}

/// Everything the package pipeline reads: the variant's and the package's
/// manifests, the requested architecture, the caller-supplied package
/// name, and the root of the shared sources tree.
pub struct PackageInput {
    pub variant_manifest: ManifestData,
    pub package_manifest: ManifestData,
    pub arch: String,
    pub cargo_package_name: String,
    pub sources_dir: String,
}

/// What the package pipeline decided: the negotiated features handed to
/// the container backend, the effective package name and its spec file,
/// whether external files must be fetched, which descriptors need module
/// vendoring (by index and kind), and which directories to crawl.
pub struct PackagePlan {
    pub features: Vec<(String, bool)>,
    pub package_name: String,
    pub spec_file: String,
    pub fetch_external: bool,
    pub vendor_modules: Vec<(usize, BundleModule)>,
    pub crawl_dirs: Vec<String>,
}

/// The vendoring work one external-file descriptor asks for.
pub open spec fn file_modules(i: int, f: ExternalFile) -> Seq<(int, BundleModule)> {
    match f.bundle_modules {
        Option::None => Seq::empty(),
        Option::Some(ms) => ms@.map_values(|m: BundleModule| (i, m)),
    }
}

/// The vendoring work of all descriptors, in descriptor order.
pub open spec fn vendor_modules_of(files: Seq<ExternalFile>) -> Seq<(int, BundleModule)>
    decreases files.len(),
{
    if files.len() == 0 {
        Seq::empty()
    } else {
        vendor_modules_of(files.drop_last()) + file_modules(files.len() - 1, files.last())
    }
}

/// The negotiated feature map as handed to the backend: empty when
/// negotiation yields nothing.
pub open spec fn negotiated_or_empty(input: PackageInput) -> Seq<(Seq<char>, bool)> {
    match spec_negotiate(
        feature_map_views(input.variant_manifest.image_features),
        tracked_set_views(input.package_manifest.package_features),
    ) {
        Option::None => Seq::empty(),
        Option::Some(s) => s,
    }
}

/// The effective package name: an explicit override in the package
/// manifest takes precedence over the caller-supplied name.
pub open spec fn effective_package_name(input: PackageInput) -> Seq<char> {
    match input.package_manifest.package_name {
        Option::Some(n) => n@,
        Option::None => input.cargo_package_name@,
    }
}

/// The environment watches owed for a sensitivity declaration.
pub open spec fn sensitivity_signal_models(s: Option<crate::sensitivity::VariantSensitivity>) -> Seq<
    SignalModel,
> {
    resolved_env_names(s).map_values(|n: Seq<char>| SignalModel::EnvChanged(n))
}

/// Every signal the package pipeline itself owes, in order: the manifest
/// file, one environment watch per tracked feature, the sensitivity
/// watches, and the package's spec file.  Signals for crawled source files
/// and for the spec's sources and patches are owed as those collaborators
/// report them.
pub open spec fn package_signal_models(input: PackageInput) -> Seq<SignalModel> {
    seq![manifest_signal()] + feature_signal_models(
        tracked_set_views(input.package_manifest.package_features),
    ) + sensitivity_signal_models(input.package_manifest.variant_sensitive) + seq![
        SignalModel::FileChanged(effective_package_name(input) + ".spec"@)
    ]
}

/// Whether a package plan is what the input owes.
pub open spec fn package_plan_matches(input: PackageInput, p: PackagePlan) -> bool {
    &&& feature_views(p.features@) == negotiated_or_empty(input)
    &&& p.package_name@ == effective_package_name(input)
    &&& p.spec_file@ == effective_package_name(input) + ".spec"@
    &&& p.fetch_external == (input.package_manifest.external_files is Some)
    &&& p.vendor_modules@.map_values(|q: (usize, BundleModule)| (q.0 as int, q.1))
        == vendor_modules_of(
        match input.package_manifest.external_files {
            Option::None => Seq::empty(),
            Option::Some(fs) => fs@,
        },
    )
    &&& p.crawl_dirs@.map_values(|d: String| d@) == (match input.package_manifest.source_groups {
        Option::None => Seq::<Seq<char>>::empty(),
        Option::Some(gs) => gs@.map_values(|g: String| input.sources_dir@ + "/"@ + g@),
    })
}

/// The package pipeline: manifest signal, architecture gate against the
/// variant's manifest, per-feature watch signals, feature negotiation,
/// sensitivity watches, and the plan of collaborator work — fetching,
/// vendoring, crawling — with the effective package name and spec file.
pub fn build_package(input: PackageInput, sink: &mut SignalSink) -> (r: Result<PackagePlan, Error>)
    ensures
        r is Ok <==> arch_accepted(declared_arches(input.variant_manifest), input.arch@),
        r matches Err(e) ==> (unsupported_arch_error(input.variant_manifest, input.arch, e)
            && signal_models(final(sink).signals@) == signal_models(old(sink).signals@).push(
            manifest_signal(),
        )),
        r matches Ok(p) ==> (package_plan_matches(input, p) && signal_models(final(sink).signals@)
            == signal_models(old(sink).signals@) + package_signal_models(input)),
{
    let PackageInput {
        variant_manifest,
        package_manifest,
        arch,
        cargo_package_name,
        sources_dir,
    } = input;
    let ghost sig0 = sink.signals@;
    sink.emit(DependencySignal::FileChanged(String::from_str("Cargo.toml")));
    let ghost sig_manifest = sink.signals@;
    proof {
        assert(signal_models(sig_manifest) =~= signal_models(sig0).push(manifest_signal()));
    }
    match supported_arch(&variant_manifest, &arch) {
        Result::Ok(()) => {},
        Result::Err(e) => {
            return Result::Err(e);
        },
    }
    emit_feature_signals(&package_manifest.package_features, sink);
    let negotiated = negotiate(variant_manifest.image_features, &package_manifest.package_features);
    let features = match negotiated {
        Option::Some(v) => v,
        Option::None => Vec::new(),
    };
    proof {
        assert(feature_views(features@) =~= negotiated_or_empty(input));
    }
    let env_names = resolve(package_manifest.variant_sensitive);
    let ghost sens = sensitivity_signal_models(package_manifest.variant_sensitive);
    let ghost sig1 = sink.signals@;
    let mut i: usize = 0;
    while i < env_names.len()
        invariant
            env_names@.map_values(|s: String| s@) == resolved_env_names(
                input.package_manifest.variant_sensitive,
            ),
            sens == sensitivity_signal_models(input.package_manifest.variant_sensitive),
            i <= env_names@.len(),
            signal_models(sink.signals@) == signal_models(sig1) + sens.subrange(0, i as int),
        decreases env_names@.len() - i,
    {
        let ghost before = sink.signals@;
        let name = env_names[i].clone();
        sink.emit(DependencySignal::EnvChanged(name));
        proof {
            assert(sens[i as int] == SignalModel::EnvChanged(env_names@[i as int]@));
            assert(sens.subrange(0, i + 1 as int).drop_last() =~= sens.subrange(0, i as int));
            assert(signal_models(sink.signals@) =~= signal_models(before).push(
                SignalModel::EnvChanged(env_names@[i as int]@),
            ));
            assert(signal_models(sink.signals@) =~= signal_models(sig1) + sens.subrange(
                0,
                i + 1 as int,
            ));
        }
        i += 1;
    }
    proof {
        assert(sens.subrange(0, sens.len() as int) =~= sens);
    }
    let package_name = match package_manifest.package_name {
        Option::Some(n) => n,
        Option::None => cargo_package_name,
    };
    let spec_file = package_name.clone().concat(".spec");
    let ghost sig_sens = sink.signals@;
    sink.emit(DependencySignal::FileChanged(spec_file.clone()));
    proof {
        assert(signal_models(sink.signals@) =~= signal_models(sig_sens).push(
            SignalModel::FileChanged(spec_file@),
        ));
        assert(spec_file@ == effective_package_name(input) + ".spec"@);
        assert(signal_models(sink.signals@) =~= signal_models(sig0) + package_signal_models(
            input,
        ));
    }
    let fetch_external = package_manifest.external_files.is_some();
    let mut vendor_modules: Vec<(usize, BundleModule)> = Vec::new();
    match package_manifest.external_files {
        Option::None => {
            proof {
                assert(vendor_modules@.map_values(|q: (usize, BundleModule)| (q.0 as int, q.1))
                    =~= vendor_modules_of(Seq::<ExternalFile>::empty()));
            }
        },
        Option::Some(ref files) => {
            let ghost fm = files@;
            let mut fi: usize = 0;
            proof {
                assert(fm.subrange(0, 0) =~= Seq::<ExternalFile>::empty());
                assert(vendor_modules@.map_values(|q: (usize, BundleModule)| (q.0 as int, q.1))
                    =~= vendor_modules_of(fm.subrange(0, 0)));
            }
            while fi < files.len()
                invariant
                    fm == files@,
                    fi <= fm.len(),
                    vendor_modules@.map_values(|q: (usize, BundleModule)| (q.0 as int, q.1))
                        == vendor_modules_of(fm.subrange(0, fi as int)),
                decreases fm.len() - fi,
            {
                let ghost pre = fm.subrange(0, fi as int);
                let ghost now = fm.subrange(0, fi + 1 as int);
                proof {
                    assert(now.drop_last() =~= pre);
                    assert(now.last() == fm[fi as int]);
                }
                match files[fi].bundle_modules {
                    Option::None => {
                        proof {
                            assert(file_modules(fi as int, fm[fi as int]) =~= Seq::<
                                (int, BundleModule),
                            >::empty());
                            assert(vendor_modules@.map_values(
                                |q: (usize, BundleModule)| (q.0 as int, q.1),
                            ) =~= vendor_modules_of(now));
                        }
                    },
                    Option::Some(ref ms) => {
                        let ghost msv = ms@;
                        let mut mj: usize = 0;
                        while mj < ms.len()
                            invariant
                                fm == files@,
                                fi < fm.len(),
                                msv == ms@,
                                fm[fi as int].bundle_modules matches Some(msb) && msb@ == msv,
                                mj <= msv.len(),
                                vendor_modules@.map_values(
                                    |q: (usize, BundleModule)| (q.0 as int, q.1),
                                ) == vendor_modules_of(fm.subrange(0, fi as int)) + msv.subrange(
                                    0,
                                    mj as int,
                                ).map_values(|m: BundleModule| (fi as int, m)),
                            decreases msv.len() - mj,
                        {
                            let ghost vbefore = vendor_modules@;
                            vendor_modules.push((fi, ms[mj]));
                            proof {
                                assert(vendor_modules@.map_values(
                                    |q: (usize, BundleModule)| (q.0 as int, q.1),
                                ) =~= vbefore.map_values(
                                    |q: (usize, BundleModule)| (q.0 as int, q.1),
                                ).push((fi as int, msv[mj as int])));
                                assert(msv.subrange(0, mj + 1 as int).map_values(
                                    |m: BundleModule| (fi as int, m),
                                ) =~= msv.subrange(0, mj as int).map_values(
                                    |m: BundleModule| (fi as int, m),
                                ).push((fi as int, msv[mj as int])));
                            }
                            mj += 1;
                        }
                        proof {
                            assert(msv.subrange(0, msv.len() as int) =~= msv);
                            assert(file_modules(fi as int, fm[fi as int]) == msv.map_values(
                                |m: BundleModule| (fi as int, m),
                            ));
                            assert(vendor_modules@.map_values(
                                |q: (usize, BundleModule)| (q.0 as int, q.1),
                            ) =~= vendor_modules_of(now));
                        }
                    },
                }
                fi += 1;
            }
            proof {
                assert(fm.subrange(0, fm.len() as int) =~= fm);
            }
        },
    }
    let mut crawl_dirs: Vec<String> = Vec::new();
    match package_manifest.source_groups {
        Option::None => {},
        Option::Some(ref gs) => {
            let ghost gv = gs@;
            let mut gi: usize = 0;
            proof {
                assert(crawl_dirs@.map_values(|d: String| d@) =~= gv.subrange(0, 0).map_values(
                    |g: String| input.sources_dir@ + "/"@ + g@,
                ));
            }
            while gi < gs.len()
                invariant
                    gv == gs@,
                    gi <= gv.len(),
                    sources_dir@ == input.sources_dir@,
                    crawl_dirs@.map_values(|d: String| d@) == gv.subrange(0, gi as int).map_values(
                        |g: String| input.sources_dir@ + "/"@ + g@,
                    ),
                decreases gv.len() - gi,
            {
                let ghost cbefore = crawl_dirs@;
                let joined = sources_dir.clone().concat("/").concat(gs[gi].as_str());
                crawl_dirs.push(joined);
                proof {
                    assert(crawl_dirs@.map_values(|d: String| d@) =~= cbefore.map_values(
                        |d: String| d@,
                    ).push(input.sources_dir@ + "/"@ + gv[gi as int]@));
                    assert(gv.subrange(0, gi + 1 as int).map_values(
                        |g: String| input.sources_dir@ + "/"@ + g@,
                    ) =~= gv.subrange(0, gi as int).map_values(
                        |g: String| input.sources_dir@ + "/"@ + g@,
                    ).push(input.sources_dir@ + "/"@ + gv[gi as int]@));
                }
                gi += 1;
            }
            proof {
                assert(gv.subrange(0, gv.len() as int) =~= gv);
            }
        },
    }
    proof {
        assert(crawl_dirs@.map_values(|d: String| d@) == (
        match input.package_manifest.source_groups {
            Option::None => Seq::<Seq<char>>::empty(),
            Option::Some(gs2) => gs2@.map_values(|g: String| input.sources_dir@ + "/"@ + g@),
        }));
    }
    Result::Ok(
        PackagePlan {
            features,
            package_name,
            spec_file,
            fetch_external,
            vendor_modules,
            crawl_dirs,
        },
    )
}

/// One build invocation's command: build a package, or build a variant.
pub enum Command {
    BuildPackage(PackageInput),
    BuildVariant(VariantInput),
}

/// The plan the selected pipeline produced.
pub enum Plan {
    Package(PackagePlan),
    Variant(VariantPlan),
}

/// Classifies the command and runs the matching pipeline over the given
/// signal sink, handing back its plan or its terminal error.
pub fn run(cmd: Command, sink: &mut SignalSink) -> (r: Result<Plan, Error>)
    ensures
        cmd matches Command::BuildPackage(input) ==> ((r is Ok <==> arch_accepted(
            declared_arches(input.variant_manifest),
            input.arch@,
        )) && (r matches Ok(pl) ==> (pl matches Plan::Package(p) && package_plan_matches(input, p)
            && signal_models(final(sink).signals@) == signal_models(old(sink).signals@)
            + package_signal_models(input))) && (r matches Err(e) ==> unsupported_arch_error(
            input.variant_manifest,
            input.arch,
            e,
        ))),
        cmd matches Command::BuildVariant(input) ==> ((r is Ok <==> (arch_accepted(
            declared_arches(input.manifest),
            input.arch@,
        ) && variant_defaults_ok(input))) && (r matches Ok(pl) ==> (pl matches Plan::Variant(p)
            && arch_accepted(declared_arches(input.manifest), input.arch@) && variant_plan_matches(
            input,
            p,
            old(sink).signals@,
            final(sink).signals@,
        ))) && (!arch_accepted(declared_arches(input.manifest), input.arch@) ==> (r matches Err(e)
            && unsupported_arch_error(input.manifest, input.arch, e))) && (r matches Err(e) ==> (
        e is UnsupportedArch || (parse_failure_named(input.defaults_listing@, e)
            && input.manifest.defaults_dir is Some && (input.manifest.defaults_dir matches Some(
            dir,
        ) ==> defaults_watches_emitted(
            dir@,
            input.defaults_listing@,
            signal_models(old(sink).signals@).push(manifest_signal()),
            signal_models(final(sink).signals@),
        )))))),
{
    match cmd {
        Command::BuildPackage(input) => {
            match build_package(input, sink) {
                Result::Ok(p) => Result::Ok(Plan::Package(p)),
                Result::Err(e) => Result::Err(e),
            }
        },
        Command::BuildVariant(input) => {
            match build_variant(input, sink) {
                Result::Ok(p) => Result::Ok(Plan::Variant(p)),
                Result::Err(e) => Result::Err(e),
            }
        },
    }
}

} // verus!
