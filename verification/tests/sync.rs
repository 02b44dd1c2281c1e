//! Whole-run scenarios: stale removal, auto-link, selection, mutual
//! exclusion, change detection and idempotence.

use vstd::prelude::Seq;

use manifest_feature_gen::DependencyHelper;
use manifest_feature_gen::DependencySetter;
use manifest_feature_gen::Error;
use manifest_feature_gen::ManifestWithFeatureCollector;
use manifest_feature_gen::ToFeatureName;

struct Feat(&'static str);

impl ToFeatureName for Feat {
    // Ghost-only trait item: erased specification code never calls it at
    // run time.
    fn name_spec(&self) -> Seq<char> {
        unreachable!()
    }

    fn to_feature_name(&self) -> String {
        self.0.to_string()
    }
}

struct NoDeps;

impl DependencySetter<Feat> for NoDeps {
    fn set(&self, _feature: &Feat, _helper: &mut DependencyHelper) {}
}

struct FixedDeps(&'static [&'static str]);

impl DependencySetter<Feat> for FixedDeps {
    fn set(&self, _feature: &Feat, helper: &mut DependencyHelper) {
        for d in self.0 {
            helper.add_dependency(d).unwrap();
        }
    }
}

fn env(names: &[&str]) -> Vec<String> {
    names.iter().map(|n| n.to_string()).collect()
}

fn feature_array(text: &str, name: &str) -> Option<Vec<String>> {
    let doc: toml_edit::DocumentMut = text.parse().unwrap();
    let table = doc.get("features")?.as_table()?;
    let arr = table.get(name)?.as_array()?;
    Some(arr.iter().map(|v| v.as_str().unwrap().to_string()).collect())
}

const MARKER: &str = " # auto-generated by manifest-feature-gen";

#[test]
fn stale_entries_are_removed_and_hand_written_kept() {
    let text = format!(
        "[package]\nname = \"demo\"\n\n[features]\nkept = [\"dep-a\"] # hand comment\nstale = [\"x\"]{}\nalso-stale = []{}\n",
        MARKER, MARKER
    );
    let m = ManifestWithFeatureCollector::load(&text, env(&[]), false).unwrap();
    let outcome = m.write();
    assert!(outcome.changed);
    let content = outcome.content.unwrap();
    assert!(content.contains("kept = [\"dep-a\"] # hand comment"));
    assert!(feature_array(&content, "stale").is_none());
    assert!(feature_array(&content, "also-stale").is_none());
    assert_eq!(feature_array(&content, "kept").unwrap(), vec!["dep-a".to_string()]);
}

#[test]
fn stale_marker_is_recognised_after_trimming() {
    let text = format!("[features]\nstale = [\"x\"]  {}  \n", MARKER.trim());
    let m = ManifestWithFeatureCollector::load(&text, env(&[]), false).unwrap();
    let outcome = m.write();
    assert!(outcome.changed);
    assert!(feature_array(&outcome.content.unwrap(), "stale").is_none());
}

#[test]
fn generated_entry_carries_marker_and_sorted_deps() {
    let mut m = ManifestWithFeatureCollector::load("", env(&[]), false).unwrap();
    let chosen = m
        .add_features(vec![Feat("alpha")], &FixedDeps(&["zeta", "beta", "pkg/feat"]))
        .unwrap();
    assert!(chosen.is_empty());
    let outcome = m.write();
    assert!(outcome.changed);
    let content = outcome.content.unwrap();
    assert!(content.contains("# auto-generated by manifest-feature-gen"));
    assert_eq!(
        feature_array(&content, "alpha").unwrap(),
        vec!["beta".to_string(), "pkg/feat".to_string(), "zeta".to_string()]
    );
}

#[test]
fn synchronizing_twice_reports_no_change() {
    let first = ManifestWithFeatureCollector::load("[package]\nname = \"demo\"\n", env(&[]), false);
    let mut m = first.unwrap();
    m.add_features(vec![Feat("alpha"), Feat("beta")], &FixedDeps(&["dep-x"])).unwrap();
    let outcome = m.write();
    assert!(outcome.changed);
    let written = outcome.content.unwrap();

    let mut again = ManifestWithFeatureCollector::load(&written, env(&[]), false).unwrap();
    again.add_features(vec![Feat("alpha"), Feat("beta")], &FixedDeps(&["dep-x"])).unwrap();
    let second = again.write();
    assert!(!second.changed);
    assert!(second.content.is_none());
    assert!(!second.abort_build);
}

#[test]
fn unchanged_equivalent_manifest_is_not_written() {
    let text = format!("[features]\nalpha = [\"beta\", \"zeta\"]{}\n", MARKER);
    let mut m = ManifestWithFeatureCollector::load(&text, env(&[]), true).unwrap();
    m.add_features(vec![Feat("alpha")], &FixedDeps(&["zeta", "beta"])).unwrap();
    let outcome = m.write();
    assert!(!outcome.changed);
    assert!(outcome.content.is_none());
    assert!(!outcome.abort_build);
}

#[test]
fn change_with_abort_policy_signals_abort() {
    let mut m = ManifestWithFeatureCollector::load("", env(&[]), true).unwrap();
    m.add_features(vec![Feat("alpha")], &NoDeps).unwrap();
    let outcome = m.write();
    assert!(outcome.changed);
    assert!(outcome.content.is_some());
    assert!(outcome.abort_build);
}

#[test]
fn change_without_abort_policy_continues() {
    let mut m = ManifestWithFeatureCollector::load("", env(&[]), false).unwrap();
    m.add_features(vec![Feat("alpha")], &NoDeps).unwrap();
    let outcome = m.write();
    assert!(outcome.changed);
    assert!(!outcome.abort_build);
}

#[test]
fn selection_follows_environment_indicators() {
    let vars = env(&["CARGO_FEATURE_ALPHA", "UNRELATED"]);
    let mut m = ManifestWithFeatureCollector::load("", vars, false).unwrap();
    let chosen = m.add_features(vec![Feat("alpha"), Feat("beta")], &NoDeps).unwrap();
    let names: Vec<&str> = chosen.iter().map(|f| f.0).collect();
    assert_eq!(names, vec!["alpha"]);
}

#[test]
fn selection_uppercases_and_replaces_hyphens() {
    let vars = env(&["CARGO_FEATURE_MY_FEAT"]);
    let mut m = ManifestWithFeatureCollector::load("", vars, false).unwrap();
    let chosen = m.add_features(vec![Feat("my-feat")], &NoDeps).unwrap();
    assert_eq!(chosen.len(), 1);
}

#[test]
fn mutual_exclusion_names_both_selected_in_order() {
    let vars = env(&["CARGO_FEATURE_ALPHA", "CARGO_FEATURE_GAMMA"]);
    let mut m = ManifestWithFeatureCollector::load("", vars, false).unwrap();
    let r = m.add_mutually_exclusive_features(
        vec![Feat("alpha"), Feat("beta"), Feat("gamma")],
        &NoDeps,
    );
    match r {
        Err(Error::MutualExclusiveFeatureError(names)) => {
            assert_eq!(names, vec!["alpha".to_string(), "gamma".to_string()]);
        }
        other => panic!("expected a mutual-exclusion failure, got {:?}", other.map(|_| ())),
    }
}

#[test]
fn mutual_exclusion_accepts_a_single_selection() {
    let vars = env(&["CARGO_FEATURE_BETA"]);
    let mut m = ManifestWithFeatureCollector::load("", vars, false).unwrap();
    let r = m
        .add_mutually_exclusive_features(vec![Feat("alpha"), Feat("beta")], &NoDeps)
        .unwrap();
    assert_eq!(r.unwrap().0, "beta");
}

#[test]
fn mutual_exclusion_accepts_no_selection() {
    let mut m = ManifestWithFeatureCollector::load("", env(&[]), false).unwrap();
    let r = m
        .add_mutually_exclusive_features(vec![Feat("alpha"), Feat("beta")], &NoDeps)
        .unwrap();
    assert!(r.is_none());
}

#[test]
fn hand_written_auto_link_is_always_included() {
    let text = "[features]\n__x = [\"manual-dep\"]\n";
    let mut m = ManifestWithFeatureCollector::load(text, env(&[]), false).unwrap();
    m.add_features(vec![Feat("x")], &NoDeps).unwrap();
    let content = m.write().content.unwrap();
    assert_eq!(feature_array(&content, "x").unwrap(), vec!["__x".to_string()]);
    assert_eq!(feature_array(&content, "__x").unwrap(), vec!["manual-dep".to_string()]);
}

#[test]
fn generated_auto_link_target_is_not_linked() {
    let text = format!("[features]\n__x = [\"manual-dep\"]{}\n", MARKER);
    let mut m = ManifestWithFeatureCollector::load(&text, env(&[]), false).unwrap();
    m.add_features(vec![Feat("x")], &NoDeps).unwrap();
    let content = m.write().content.unwrap();
    assert_eq!(feature_array(&content, "x").unwrap(), Vec::<String>::new());
    assert!(feature_array(&content, "__x").is_none());
}

#[test]
fn invalid_toml_fails_with_parse_error() {
    let r = ManifestWithFeatureCollector::load("[[[", env(&[]), false);
    assert!(matches!(r.map(|_| ()), Err(Error::ParseError(_))));
}

#[test]
fn non_array_feature_fails_naming_the_feature() {
    let r = ManifestWithFeatureCollector::load("[features]\nbad = 3\n", env(&[]), false);
    match r.map(|_| ()) {
        Err(Error::MalformedManifest(name)) => assert_eq!(name, "bad"),
        other => panic!("expected a malformed-manifest failure, got {:?}", other),
    }
}

#[test]
fn non_string_array_element_fails_naming_the_feature() {
    let r = ManifestWithFeatureCollector::load("[features]\nbad = [1]\n", env(&[]), false);
    assert!(matches!(r.map(|_| ()), Err(Error::MalformedManifest(_))));
}

#[test]
fn untouched_sections_and_comments_are_preserved() {
    let text = "# top comment\n[package]\nname = \"demo\" # keep me\n";
    let mut m = ManifestWithFeatureCollector::load(text, env(&[]), false).unwrap();
    m.add_features(vec![Feat("alpha")], &NoDeps).unwrap();
    let content = m.write().content.unwrap();
    assert!(content.contains("# top comment"));
    assert!(content.contains("name = \"demo\" # keep me"));
}
