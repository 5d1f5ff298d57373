use buildsys::defaults::Fragment;
use buildsys::dispatch::{
    build_package, build_variant, run, Command, PackageInput, Plan, VariantInput,
};
use buildsys::errors::Error;
use buildsys::manifest::{BundleModule, ExternalFile, ManifestData};
use buildsys::sensitivity::{SensitivityType, VariantSensitivity};
use buildsys::signals::{DependencySignal, SignalSink};

fn frag(name: &str, content: &str) -> Fragment {
    Fragment {
        name: name.to_string(),
        content: content.to_string(),
    }
}

fn names(list: &[&str]) -> Option<Vec<String>> {
    Some(list.iter().map(|n| n.to_string()).collect())
}

fn env_signals(sink: &SignalSink) -> Vec<String> {
    sink.signals
        .iter()
        .filter_map(|s| match s {
            DependencySignal::EnvChanged(v) => Some(v.clone()),
            DependencySignal::FileChanged(_) => None,
        })
        .collect()
}

fn package_input() -> PackageInput {
    PackageInput {
        variant_manifest: ManifestData::none_declared(),
        package_manifest: ManifestData::none_declared(),
        arch: "x86_64".to_string(),
        cargo_package_name: "mypkg".to_string(),
        sources_dir: "sources".to_string(),
    }
}

#[test]
fn feature_signals_cover_every_tracked_feature() {
    let mut input = package_input();
    input.package_manifest.package_features = names(&["one", "two"]);
    let mut sink = SignalSink::new();
    let plan = build_package(input, &mut sink).unwrap();
    assert_eq!(
        env_signals(&sink),
        vec![
            "BUILDSYS_VARIANT_IMAGE_FEATURE_one".to_string(),
            "BUILDSYS_VARIANT_IMAGE_FEATURE_two".to_string(),
        ]
    );
    assert_eq!(plan.features, Vec::new());
}

#[test]
fn negotiation_end_to_end_with_one_tracked_feature() {
    let mut input = package_input();
    input.variant_manifest.image_features =
        Some(vec![("a".to_string(), true), ("b".to_string(), false)]);
    input.package_manifest.package_features = names(&["a"]);
    let mut sink = SignalSink::new();
    let plan = build_package(input, &mut sink).unwrap();
    assert_eq!(plan.features, vec![("a".to_string(), true)]);
    assert_eq!(
        env_signals(&sink),
        vec!["BUILDSYS_VARIANT_IMAGE_FEATURE_a".to_string()]
    );
}

#[test]
fn package_pipeline_names_spec_and_sensitivity() {
    let mut input = package_input();
    input.package_manifest.package_name = Some("custom-name".to_string());
    input.package_manifest.variant_sensitive =
        Some(VariantSensitivity::Specific(SensitivityType::Flavor));
    let mut sink = SignalSink::new();
    let plan = build_package(input, &mut sink).unwrap();
    assert_eq!(plan.package_name, "custom-name");
    assert_eq!(plan.spec_file, "custom-name.spec");
    assert!(env_signals(&sink).contains(&"BUILDSYS_VARIANT_FLAVOR".to_string()));
    let rendered: Vec<String> = sink.signals.iter().map(|s| s.render()).collect();
    assert!(rendered.contains(&"cargo:rerun-if-changed=Cargo.toml".to_string()));
    assert!(rendered.contains(&"cargo:rerun-if-changed=custom-name.spec".to_string()));
}

#[test]
fn package_pipeline_plans_collaborator_work() {
    let mut input = package_input();
    input.package_manifest.external_files = Some(vec![
        ExternalFile { bundle_modules: None },
        ExternalFile {
            bundle_modules: Some(vec![BundleModule::Go]),
        },
    ]);
    input.package_manifest.source_groups = names(&["group1", "group2"]);
    let mut sink = SignalSink::new();
    let plan = build_package(input, &mut sink).unwrap();
    assert!(plan.fetch_external);
    assert_eq!(plan.vendor_modules, vec![(1usize, BundleModule::Go)]);
    assert_eq!(
        plan.crawl_dirs,
        vec!["sources/group1".to_string(), "sources/group2".to_string()]
    );
}

#[test]
fn package_pipeline_gate_runs_before_features() {
    let mut input = package_input();
    input.variant_manifest.supported_arches = names(&["arm64"]);
    input.package_manifest.package_features = names(&["a"]);
    let mut sink = SignalSink::new();
    let r = build_package(input, &mut sink);
    assert!(matches!(r, Err(Error::UnsupportedArch { .. })));
    assert_eq!(env_signals(&sink), Vec::<String>::new());
}

#[test]
fn variant_without_included_packages_skips_but_aggregates() {
    let mut manifest = ManifestData::none_declared();
    manifest.defaults_dir = Some("defaults.d".to_string());
    let input = VariantInput {
        manifest,
        arch: "x86_64".to_string(),
        root_dir: "root".to_string(),
        defaults_listing: vec![frag("10-a.toml", "x = 1\n")],
    };
    let mut sink = SignalSink::new();
    let plan = build_variant(input, &mut sink).unwrap();
    assert!(!plan.build);
    assert_eq!(
        plan.skip_warning.as_deref(),
        Some("cargo:warning=No included packages in manifest. Skipping variant build.")
    );
    let artifact = plan.defaults.expect("defaults still aggregated");
    assert_eq!(artifact.path, "root/build/tools/defaults.toml");
    assert_eq!(artifact.content, "x = 1\n");
    let rendered: Vec<String> = sink.signals.iter().map(|s| s.render()).collect();
    assert!(rendered.contains(&"cargo:rerun-if-changed=defaults.d/10-a.toml".to_string()));
}

#[test]
fn variant_with_included_packages_builds() {
    let mut manifest = ManifestData::none_declared();
    manifest.included_packages = names(&["pkg-a"]);
    let input = VariantInput {
        manifest,
        arch: "x86_64".to_string(),
        root_dir: "root".to_string(),
        defaults_listing: Vec::new(),
    };
    let mut sink = SignalSink::new();
    let plan = build_variant(input, &mut sink).unwrap();
    assert!(plan.build);
    assert!(plan.skip_warning.is_none());
    assert!(plan.defaults.is_none());
}

#[test]
fn run_dispatches_both_pipelines() {
    let mut sink = SignalSink::new();
    match run(Command::BuildPackage(package_input()), &mut sink) {
        Ok(Plan::Package(p)) => assert_eq!(p.package_name, "mypkg"),
        other => panic!("expected a package plan, got {:?}", other.is_ok()),
    }
    let input = VariantInput {
        manifest: ManifestData::none_declared(),
        arch: "armv7".to_string(),
        root_dir: "root".to_string(),
        defaults_listing: Vec::new(),
    };
    match run(Command::BuildVariant(input), &mut sink) {
        Ok(Plan::Variant(p)) => assert!(!p.build),
        other => panic!("expected a variant plan, got {:?}", other.is_ok()),
    }
}

#[test]
fn variant_gate_failure_aborts_before_defaults() {
    let mut manifest = ManifestData::none_declared();
    manifest.supported_arches = names(&["arm64", "x86_64"]);
    manifest.defaults_dir = Some("defaults.d".to_string());
    let input = VariantInput {
        manifest,
        arch: "armv7".to_string(),
        root_dir: "root".to_string(),
        defaults_listing: vec![frag("10-a.toml", "x = 1\n")],
    };
    let mut sink = SignalSink::new();
    let r = build_variant(input, &mut sink);
    match r {
        Err(e) => assert_eq!(
            e.describe(),
            "Unsupported architecture armv7, this variant supports arm64, x86_64"
        ),
        Ok(_) => panic!("armv7 must be rejected"),
    }
    assert_eq!(sink.signals.len(), 1);
}

#[test]
fn collaborator_paths_become_file_signals() {
    let mut sink = SignalSink::new();
    sink.emit_paths(vec!["src/a.c".to_string(), "patches/fix.patch".to_string()]);
    let rendered: Vec<String> = sink.signals.iter().map(|s| s.render()).collect();
    assert_eq!(
        rendered,
        vec![
            "cargo:rerun-if-changed=src/a.c".to_string(),
            "cargo:rerun-if-changed=patches/fix.patch".to_string(),
        ]
    );
}

#[test]
fn variant_defaults_parse_failure_names_the_fragment() {
    let mut manifest = ManifestData::none_declared();
    manifest.defaults_dir = Some("defaults.d".to_string());
    let input = VariantInput {
        manifest,
        arch: "x86_64".to_string(),
        root_dir: "root".to_string(),
        defaults_listing: vec![frag("10-good.toml", "x = 1\n"), frag("20-bad.toml", "???")],
    };
    let mut sink = SignalSink::new();
    match build_variant(input, &mut sink) {
        Err(Error::FragmentParse { name }) => assert_eq!(name, "20-bad.toml"),
        other => panic!("expected a parse failure, got {:?}", other.is_ok()),
    }
    let rendered: Vec<String> = sink.signals.iter().map(|s| s.render()).collect();
    assert_eq!(
        rendered,
        vec![
            "cargo:rerun-if-changed=Cargo.toml".to_string(),
            "cargo:rerun-if-changed=defaults.d/10-good.toml".to_string(),
            "cargo:rerun-if-changed=defaults.d/20-bad.toml".to_string(),
        ]
    );
}
