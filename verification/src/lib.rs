//! Generates the `[features]` table of a cargo manifest during a build step.
//!
//! The manifest is loaded once, previously generated entries (recognised by a
//! trailing marker comment) are removed, the requested features are rebuilt
//! with conflict-checked dependency edges, and the file is written back only
//! when its feature table actually changed.

use vstd::prelude::*;

mod manifest;

pub use manifest::Dependency;
pub use manifest::DependencyError;
pub use manifest::DependencyHelper;
pub use manifest::DepModel;
pub use manifest::dep_str;
pub use manifest::opposite_edge;
pub use manifest::requested_edge;
pub use manifest::slash_count;
pub use manifest::first_slash;
pub use manifest::parsed_optional;
pub use manifest::parsed_krate;
pub use manifest::parsed_feature;
pub use manifest::generated_marker;
pub use manifest::marker_view;
pub use manifest::is_marked;
pub use manifest::lex_leq;
pub use manifest::lex_sorted;
pub use manifest::views_of;
pub use manifest::trim_spec;
pub use manifest::env_var_name;
pub use manifest::upper_of;
pub use manifest::doc_feature_table;
pub use manifest::doc_render;
pub use manifest::doc_wf;
pub use manifest::table_of;
pub use manifest::raw_model;
pub use manifest::distinct_names;
pub use manifest::RawFeature;
pub use manifest::FeatureModel;
pub use manifest::Gen;
pub use manifest::strip_stale;
pub use manifest::lemma_strip_stale_props;
pub use manifest::snap_of;
pub use manifest::sync_table;
pub use manifest::apply_gens;
pub use manifest::lemma_sync_idempotent;
pub use manifest::lemma_second_run_unchanged;
pub use manifest::lemma_sorted_render_unique;
pub use manifest::lemma_rendered_of_edges;
pub use manifest::selected_of;
pub use manifest::gens_ok;
pub use manifest::renders_edges;
pub use manifest::hand_written;
pub use manifest::underscored;
pub use manifest::ManifestWithFeatureCollector;
pub use manifest::WriteOutcome;
pub use manifest::DependencySetter;
pub use manifest::FeatureNameFormatter;

verus! {

/// Possible errors while synchronizing a cargo manifest.
#[derive(Debug)]
pub enum Error {
    /// The environment variable naming the manifest directory is missing.
    EnvError,
    /// Reading or writing the manifest file failed.
    IoError(std::io::Error),
    /// The manifest text is not valid TOML.
    ParseError(toml_edit::TomlError),
    /// A feature entry is not an array of strings; carries the feature name.
    MalformedManifest(String),
    /// More than one mutually exclusive feature is enabled; carries their names.
    MutualExclusiveFeatureError(Vec<String>),
    /// Not a defect: the manifest was rewritten and the build must be re-run.
    ManifestChanged,
}

/// Provides the feature name written to the cargo manifest.
/// Snake_case or kebab-case names are recommended.
///
/// The spec function names the feature a descriptor stands for, and the
/// executable method must return exactly it: this is what ties each
/// descriptor to the entry generated for it.
pub trait ToFeatureName {
    spec fn name_spec(&self) -> Seq<char>;

    fn to_feature_name(&self) -> (r: String)
        ensures
            r@ == self.name_spec(),
    ;
}

} // verus!
