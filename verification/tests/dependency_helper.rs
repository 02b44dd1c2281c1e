//! The dependency model: format validation, conflict rules, rendering and
//! deterministic sorting.

use manifest_feature_gen::Dependency;
use manifest_feature_gen::DependencyError;
use manifest_feature_gen::DependencyHelper;

#[test]
fn simple_renders_as_itself() {
    assert_eq!(Dependency::Simple("simple".to_string()).into_string(), "simple");
}

#[test]
fn crate_feature_renders_with_slash() {
    assert_eq!(
        Dependency::CrateFeature("pkg".to_string(), "feat".to_string()).into_string(),
        "pkg/feat"
    );
}

#[test]
fn optional_crate_feature_renders_with_question_mark() {
    assert_eq!(
        Dependency::OptionalCrateFeature("pkg".to_string(), "feat".to_string()).into_string(),
        "pkg?/feat"
    );
}

#[test]
fn two_slashes_fail_as_invalid_format() {
    let mut helper = DependencyHelper::new("f".to_string());
    let r = helper.add_dependency("a/b/c");
    assert!(matches!(r, Err(DependencyError::InvalidDependencyFormat)));
}

#[test]
fn optional_spec_renders_back() {
    let mut helper = DependencyHelper::new("f".to_string());
    helper.add_dependency("a?/b").unwrap();
    assert_eq!(helper.into_sorted_strings(), vec!["a?/b".to_string()]);
}

#[test]
fn simple_spec_renders_back() {
    let mut helper = DependencyHelper::new("f".to_string());
    helper.add_dependency("simple").unwrap();
    assert_eq!(helper.into_sorted_strings(), vec!["simple".to_string()]);
}

#[test]
fn mandatory_then_optional_conflicts() {
    let mut helper = DependencyHelper::new("f".to_string());
    helper.add_dependency("a/f").unwrap();
    let r = helper.add_dependency("a?/f");
    assert!(matches!(r, Err(DependencyError::Conflict)));
}

#[test]
fn optional_then_mandatory_conflicts() {
    let mut helper = DependencyHelper::new("f".to_string());
    helper.add_dependency("a?/f").unwrap();
    let r = helper.add_dependency("a/f");
    assert!(matches!(r, Err(DependencyError::Conflict)));
}

#[test]
fn independent_helpers_do_not_conflict() {
    let mut one = DependencyHelper::new("f".to_string());
    let mut two = DependencyHelper::new("g".to_string());
    one.add_dependency("a/f").unwrap();
    two.add_dependency("a?/f").unwrap();
    assert_eq!(one.into_sorted_strings(), vec!["a/f".to_string()]);
    assert_eq!(two.into_sorted_strings(), vec!["a?/f".to_string()]);
}

#[test]
fn duplicate_dependency_is_kept_once() {
    let mut helper = DependencyHelper::new("f".to_string());
    helper.add_dependency("x").unwrap();
    helper.add_dependency("x").unwrap();
    assert_eq!(helper.into_sorted_strings(), vec!["x".to_string()]);
}

#[test]
fn output_is_sorted_regardless_of_declaration_order() {
    let mut one = DependencyHelper::new("f".to_string());
    one.add_dependency("zeta").unwrap();
    one.add_dependency("alpha").unwrap();
    one.add_dependency("pkg/feat").unwrap();
    let mut two = DependencyHelper::new("f".to_string());
    two.add_dependency("pkg/feat").unwrap();
    two.add_dependency("zeta").unwrap();
    two.add_dependency("alpha").unwrap();
    let a = one.into_sorted_strings();
    let b = two.into_sorted_strings();
    assert_eq!(a, b);
    assert_eq!(a, vec!["alpha".to_string(), "pkg/feat".to_string(), "zeta".to_string()]);
}

#[test]
fn propagate_to_crate_uses_own_feature_name() {
    let mut helper = DependencyHelper::new("feat".to_string());
    helper.propagate_to_crate("pkg", false).unwrap();
    assert_eq!(helper.into_sorted_strings(), vec!["pkg/feat".to_string()]);
}

#[test]
fn propagate_optional_renders_question_mark() {
    let mut helper = DependencyHelper::new("feat".to_string());
    helper.propagate_to_crate("pkg", true).unwrap();
    assert_eq!(helper.into_sorted_strings(), vec!["pkg?/feat".to_string()]);
}

#[test]
fn propagate_conflicts_with_opposite_string_form() {
    let mut helper = DependencyHelper::new("feat".to_string());
    helper.propagate_to_crate("pkg", false).unwrap();
    let r = helper.add_dependency("pkg?/feat");
    assert!(matches!(r, Err(DependencyError::Conflict)));
}

#[test]
fn lone_slash_is_an_empty_crate_feature() {
    let mut helper = DependencyHelper::new("f".to_string());
    helper.add_dependency("/").unwrap();
    assert_eq!(helper.into_sorted_strings(), vec!["/".to_string()]);
}

#[test]
fn trailing_question_mark_without_slash_stays_simple() {
    let mut helper = DependencyHelper::new("f".to_string());
    helper.add_dependency("a?").unwrap();
    assert_eq!(helper.into_sorted_strings(), vec!["a?".to_string()]);
}

#[test]
fn empty_sub_feature_keeps_the_slash() {
    let mut helper = DependencyHelper::new("f".to_string());
    helper.add_dependency("x/").unwrap();
    assert_eq!(helper.into_sorted_strings(), vec!["x/".to_string()]);
}
