use buildsys::arch::supported_arch;
use buildsys::defaults::{aggregate, merge_fragments, render_defaults, select_fragments, Fragment};
use buildsys::doc::{deep_merge, DocValue};
use buildsys::errors::Error;
use buildsys::features::negotiate;
use buildsys::manifest::ManifestData;
use buildsys::sensitivity::{resolve, SensitivityType, VariantSensitivity};
use buildsys::signals::DependencySignal;

fn frag(name: &str, content: &str) -> Fragment {
    Fragment {
        name: name.to_string(),
        content: content.to_string(),
    }
}

fn ambient(pairs: &[(&str, bool)]) -> Option<Vec<(String, bool)>> {
    Some(
        pairs
            .iter()
            .map(|(n, v)| (n.to_string(), *v))
            .collect(),
    )
}

fn names(list: &[&str]) -> Option<Vec<String>> {
    Some(list.iter().map(|n| n.to_string()).collect())
}

#[test]
fn negotiate_absent_ambient_gives_absent() {
    assert_eq!(negotiate(None, &names(&["a"])), None);
    assert_eq!(negotiate(None, &None), None);
}

#[test]
fn negotiate_absent_tracked_clears_all() {
    let r = negotiate(ambient(&[("a", true), ("b", false)]), &None);
    assert_eq!(r, Some(Vec::new()));
}

#[test]
fn negotiate_intersects_by_name() {
    let r = negotiate(ambient(&[("a", true), ("b", false)]), &names(&["a", "c"]));
    assert_eq!(r, Some(vec![("a".to_string(), true)]));
}

#[test]
fn negotiate_is_idempotent_on_values() {
    let once = negotiate(ambient(&[("a", true), ("b", false)]), &names(&["b"]));
    let twice = negotiate(once.clone(), &names(&["b"]));
    assert_eq!(once, twice);
}

#[test]
fn sensitivity_cases_map_to_fixed_names() {
    assert_eq!(resolve(None), Vec::<String>::new());
    assert_eq!(resolve(Some(VariantSensitivity::Any(false))), Vec::<String>::new());
    assert_eq!(
        resolve(Some(VariantSensitivity::Any(true))),
        vec!["BUILDSYS_VARIANT".to_string()]
    );
    assert_eq!(
        resolve(Some(VariantSensitivity::Specific(SensitivityType::Platform))),
        vec!["BUILDSYS_VARIANT_PLATFORM".to_string()]
    );
    assert_eq!(
        resolve(Some(VariantSensitivity::Specific(SensitivityType::Runtime))),
        vec!["BUILDSYS_VARIANT_RUNTIME".to_string()]
    );
    assert_eq!(
        resolve(Some(VariantSensitivity::Specific(SensitivityType::Family))),
        vec!["BUILDSYS_VARIANT_FAMILY".to_string()]
    );
    assert_eq!(
        resolve(Some(VariantSensitivity::Specific(SensitivityType::Flavor))),
        vec!["BUILDSYS_VARIANT_FLAVOR".to_string()]
    );
}

#[test]
fn arch_gate_rejects_with_full_context() {
    let mut m = ManifestData::none_declared();
    m.supported_arches = names(&["arm64", "x86_64"]);
    let r = supported_arch(&m, &"armv7".to_string());
    match r {
        Err(e) => {
            assert_eq!(
                e.describe(),
                "Unsupported architecture armv7, this variant supports arm64, x86_64"
            );
        }
        Ok(()) => panic!("armv7 must be rejected"),
    }
}

#[test]
fn arch_gate_accepts_member_and_open_world() {
    let mut m = ManifestData::none_declared();
    m.supported_arches = names(&["arm64", "x86_64"]);
    assert!(supported_arch(&m, &"x86_64".to_string()).is_ok());
    let open = ManifestData::none_declared();
    assert!(supported_arch(&open, &"armv7".to_string()).is_ok());
}

#[test]
fn select_orders_by_name_and_drops_other_files() {
    let listing = vec![
        frag("20-late.toml", "b = 2"),
        frag("notes.txt", "ignored"),
        frag("10-early.toml", "a = 1"),
    ];
    let sel = select_fragments(listing);
    let got: Vec<&str> = sel.iter().map(|f| f.name.as_str()).collect();
    assert_eq!(got, vec!["10-early.toml", "20-late.toml"]);
}

#[test]
fn select_is_order_independent() {
    let a = select_fragments(vec![frag("b.toml", "x = 1"), frag("a.toml", "y = 2")]);
    let b = select_fragments(vec![frag("a.toml", "y = 2"), frag("b.toml", "x = 1")]);
    let an: Vec<&str> = a.iter().map(|f| f.name.as_str()).collect();
    let bn: Vec<&str> = b.iter().map(|f| f.name.as_str()).collect();
    assert_eq!(an, bn);
    assert_eq!(a[0].content, b[0].content);
}

#[test]
fn merge_overrides_keywise_not_wholesale() {
    let a = frag("a.toml", "[x]\ny = 1\nz = 2\n");
    let b = frag("b.toml", "[x]\ny = 3\n");
    let out = merge_fragments(&vec![a, b]).unwrap();
    assert_eq!(out, "[x]\ny = 3\nz = 2\n");
}

#[test]
fn merge_replaces_arrays_wholesale() {
    let a = frag("a.toml", "v = [1, 2, 3]\n");
    let b = frag("b.toml", "v = [9]\n");
    let out = merge_fragments(&vec![a, b]).unwrap();
    assert_eq!(out, "v = [9]\n");
}

#[test]
fn merge_of_single_fragment_reproduces_it() {
    let out = merge_fragments(&vec![frag("a.toml", "x = 1")]).unwrap();
    assert_eq!(out, "x = 1\n");
}

#[test]
fn merge_keeps_floats_and_datetimes() {
    let out = merge_fragments(&vec![frag("a.toml", "t = 1.5\nd = 1979-05-27\n")]).unwrap();
    assert_eq!(out, "d = 1979-05-27\nt = 1.5\n");
}

#[test]
fn aggregate_sorts_before_merging() {
    let out = aggregate(vec![
        frag("20-b.toml", "x = 2\n"),
        frag("10-a.toml", "x = 1\ny = 7\n"),
    ])
    .unwrap();
    assert_eq!(out, "x = 2\ny = 7\n");
}

#[test]
fn invalid_fragment_names_the_file() {
    let r = merge_fragments(&vec![frag("bad.toml", "???")]);
    match r {
        Err(Error::FragmentParse { name }) => {
            assert_eq!(name, "bad.toml");
        }
        other => panic!("expected a parse failure, got {:?}", other),
    }
    let r2 = merge_fragments(&vec![frag("bad.toml", "???")]);
    assert_eq!(r2.unwrap_err().describe(), "bad.toml is not valid TOML");
}

#[test]
fn top_level_scalar_cannot_serialize() {
    let r = render_defaults(&DocValue::Integer(3));
    match r {
        Err(Error::DefaultsSerialize) => {}
        other => panic!("expected a serialize failure, got {:?}", other),
    }
}

#[test]
fn deep_merge_scalar_replaces_table() {
    let base = DocValue::Table(vec![("k".to_string(), DocValue::Integer(1))]);
    let over = DocValue::Boolean(true);
    let merged = deep_merge(&base, &over);
    match merged {
        DocValue::Boolean(true) => {}
        other => panic!("expected wholesale replacement, got {:?}", other),
    }
}

#[test]
fn deep_merge_appends_fresh_keys_in_overlay_order() {
    let base = DocValue::Table(vec![("a".to_string(), DocValue::Integer(1))]);
    let over = DocValue::Table(vec![
        ("c".to_string(), DocValue::Integer(3)),
        ("b".to_string(), DocValue::Integer(2)),
    ]);
    let merged = deep_merge(&base, &over);
    match merged {
        DocValue::Table(entries) => {
            let keys: Vec<&str> = entries.iter().map(|(k, _)| k.as_str()).collect();
            assert_eq!(keys, vec!["a", "c", "b"]);
        }
        other => panic!("expected a table, got {:?}", other),
    }
}

#[test]
fn signal_lines_follow_the_protocol() {
    let f = DependencySignal::FileChanged("pkg.spec".to_string());
    let e = DependencySignal::EnvChanged("BUILDSYS_VARIANT".to_string());
    assert_eq!(f.render(), "cargo:rerun-if-changed=pkg.spec");
    assert_eq!(e.render(), "cargo:rerun-if-env-changed=BUILDSYS_VARIANT");
}
