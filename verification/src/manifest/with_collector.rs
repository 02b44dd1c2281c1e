//! Cargo manifest representation for generating features in a build script:
//! loads the manifest, snapshots the feature table, removes stale generated
//! entries, regenerates the requested features, and decides whether the file
//! must be written back.

use vstd::prelude::*;
use crate::Error;
use crate::ToFeatureName;
use crate::manifest::Dependency;
use crate::manifest::DependencyHelper;
use crate::manifest::DepModel;
use crate::manifest::dep_str;
use crate::manifest::doc::distinct_names;
use crate::manifest::doc::doc_feature_table;
use crate::manifest::doc::doc_render;
use crate::manifest::doc::doc_wf;
use crate::manifest::doc::feature_decor;
use crate::manifest::doc::doc_bad_feature;
use crate::manifest::doc::doc_has_features;
use crate::manifest::doc::ensure_features_table;
use crate::manifest::doc::parse_document;
use crate::manifest::doc::parsed_bad_feature;
use crate::manifest::doc::parsed_table;
use crate::manifest::doc::parsed_wf;
use crate::manifest::doc::toml_parses;
use crate::manifest::doc::raw_model;
use crate::manifest::doc::read_features;
use crate::manifest::doc::remove_feature;
use crate::manifest::doc::render_document;
use crate::manifest::doc::set_feature;
use crate::manifest::doc::table_of;
use crate::manifest::doc::RawFeature;
use crate::manifest::model::apply_gens;
use crate::manifest::model::gen_model;
use crate::manifest::model::generated_marker;
use crate::manifest::model::is_marked;
use crate::manifest::model::marked_keys;
use crate::manifest::model::marker_view;
use crate::manifest::model::snap_of;
use crate::manifest::model::strip_stale;
use crate::manifest::model::FeatureModel;
use crate::manifest::model::Gen;
use crate::manifest::text::env_var_name;
use crate::manifest::text::env_var_name_of;
use crate::manifest::text::lex_sorted;
use crate::manifest::text::trimmed_eq;
use crate::manifest::text::vec_contains_str;
use crate::manifest::text::views_of;
use crate::manifest::text::str_eq;

verus! {

/// Declares the dependencies of one feature descriptor through the helper.
/// Impls can only grow the edge set: the helper offers no removal, so every
/// implementation that extends the helper it was handed keeps its edges. An
/// implementation is expected to do exactly that — not to replace `*helper`
/// with a freshly built one, which the stated contract rules out.
pub trait DependencySetter<T> {
    fn set(&self, feature: &T, helper: &mut DependencyHelper)
        requires
            old(helper).wf(),
        ensures
            final(helper).wf(),
            final(helper).feature() == old(helper).feature(),
            old(helper).edges().subset_of(final(helper).edges()),
    ;
}

/// Produces the manifest feature name of one descriptor.
///
/// The spec function names the feature, and the executable method must
/// return exactly it: this ties each descriptor to the entry generated for
/// it.
pub trait FeatureNameFormatter<T> {
    spec fn name_spec(&self, feature: T) -> Seq<char>;

    fn feature_name(&self, feature: &T) -> (r: String)
        ensures
            r@ == self.name_spec(*feature),
    ;
}

/// The default formatter: the descriptor's own feature name.
struct ToFeatureNameFormatter;

impl<T: ToFeatureName> FeatureNameFormatter<T> for ToFeatureNameFormatter {
    open spec fn name_spec(&self, feature: T) -> Seq<char> {
        feature.name_spec()
    }

    fn feature_name(&self, feature: &T) -> (r: String) {
        feature.to_feature_name()
    }
}

/// The auto-link name of a feature.
pub open spec fn underscored(n: Seq<char>) -> Seq<char> {
    "__"@ + n
}

/// A feature entry that is present and not generator-owned.
pub open spec fn hand_written(t: Map<Seq<char>, FeatureModel>, k: Seq<char>) -> bool {
    t.dom().contains(k) && !is_marked(t[k].decor)
}

/// The written strings are the sorted rendering of the edge set: sorted, one
/// string per edge, and a string occurs exactly where some edge renders to
/// it.
pub open spec fn renders_edges(deps: Seq<Seq<char>>, edges: Set<DepModel>) -> bool {
    &&& lex_sorted(deps)
    &&& deps.len() == edges.len()
    &&& forall|x: Seq<char>|
        #[trigger] deps.contains(x) <==> exists|e: DepModel|
            #[trigger] edges.contains(e) && dep_str(e) == x
}

/// What one synchronization run leaves behind: the table is the old one with
/// every regenerated entry written over it; each entry is the sorted
/// rendering of its edge set; and where a hand-written `__<name>` entry
/// stands, that edge set holds the auto-link seed, so the generated entry
/// links it.
pub open spec fn gens_ok(
    t0: Map<Seq<char>, FeatureModel>,
    t1: Map<Seq<char>, FeatureModel>,
    gens: Seq<Gen>,
) -> bool {
    &&& t1 == apply_gens(t0, gens)
    &&& forall|i: int| 0 <= i < gens.len() ==> renders_edges(#[trigger] gens[i].deps, gens[i].edges)
    &&& forall|i: int|
        0 <= i < gens.len() ==> (hand_written(t1, underscored(#[trigger] gens[i].name))
            ==> gens[i].edges.contains(DepModel::Simple { name: underscored(gens[i].name) }))
    &&& forall|i: int|
        0 <= i < gens.len() ==> (hand_written(t1, underscored(#[trigger] gens[i].name))
            ==> t1.dom().contains(gens[i].name) && t1[gens[i].name].deps.contains(
            underscored(gens[i].name),
        ))
}

/// The descriptors whose environment indicator is present, with their
/// feature names, in input order.
pub open spec fn selected_of<T>(feats: Seq<T>, gens: Seq<Gen>, env: Set<Seq<char>>) -> Seq<
    (T, Seq<char>),
>
    decreases feats.len(),
{
    if feats.len() == 0 || gens.len() == 0 {
        Seq::empty()
    } else if env.contains(env_var_name(gens.last().name)) {
        selected_of(feats.drop_last(), gens.drop_last(), env).push(
            (feats.last(), gens.last().name),
        )
    } else {
        selected_of(feats.drop_last(), gens.drop_last(), env)
    }
}

/// Whether a trailing decoration marks an entry as generator-owned.
fn is_marked_str(s: &str) -> (r: bool)
    ensures
        r == is_marked(s@),
{
    trimmed_eq(s, generated_marker())
}

/// The decision of one synchronization run's finish: whether the feature
/// table changed, the text to persist if it did, and whether the caller must
/// abort the build after writing it.
pub struct WriteOutcome {
    /// The feature table differs from the one loaded.
    pub changed: bool,
    /// The full manifest text to write back, present exactly when changed.
    pub content: Option<String>,
    /// The caller must stop the build after persisting the content.
    pub abort_build: bool,
}

/// Cargo manifest representation for generating features in a build script.
///
/// Loading is split from I/O: the caller reads the manifest text and the
/// names of the present environment variables, and persists the text that
/// `write` hands back.
pub struct ManifestWithFeatureCollector {
    doc: toml_edit::DocumentMut,
    original: Vec<RawFeature>,
    env_vars: Vec<String>,
    prevent_build_when_changed: bool,
}

impl ManifestWithFeatureCollector {
    /// The document and its snapshot are well-shaped, and the document holds
    /// a features table.
    pub closed spec fn wf(self) -> bool {
        doc_wf(self.doc) && doc_has_features(self.doc) && distinct_names(self.original@)
    }

    /// The document holds a features table, inserted empty at load where the
    /// text had none.
    pub closed spec fn has_features_table(self) -> bool {
        doc_has_features(self.doc)
    }

    /// The feature table the document holds now.
    pub closed spec fn table(self) -> Map<Seq<char>, FeatureModel> {
        doc_feature_table(self.doc)
    }

    /// The feature table as it stood in the loaded text, before stale
    /// removal.
    pub closed spec fn loaded_table(self) -> Map<Seq<char>, FeatureModel> {
        table_of(self.original@)
    }

    /// The snapshot the final comparison runs against.
    pub closed spec fn original_snapshot(self) -> Map<Seq<char>, Set<Seq<char>>> {
        snap_of(table_of(self.original@))
    }

    /// The comparable shape of the table the document holds now.
    pub closed spec fn current_snapshot(self) -> Map<Seq<char>, Set<Seq<char>>> {
        snap_of(doc_feature_table(self.doc))
    }

    /// The names of the present environment variables.
    pub closed spec fn env(self) -> Set<Seq<char>> {
        views_of(self.env_vars@).to_set()
    }

    /// Whether a changed manifest must abort the build.
    pub closed spec fn prevents(self) -> bool {
        self.prevent_build_when_changed
    }

    /// The text the manifest document serializes to.
    pub closed spec fn rendered_text(self) -> Seq<char> {
        doc_render(self.doc)
    }

    /// What `write` compares is exactly the order-independent shape of the
    /// tables the other contracts speak of.
    pub proof fn lemma_snapshots(self)
        ensures
            self.current_snapshot() == snap_of(self.table()),
            self.original_snapshot() == snap_of(self.loaded_table()),
    {
    }

    /// Builds the collector from a parsed document: snapshots the feature
    /// table, then deletes every entry bearing the marker comment, so that
    /// regeneration starts from the hand-written entries alone.
    pub fn from_document(
        doc: toml_edit::DocumentMut,
        env_vars: Vec<String>,
        prevent_build_when_changed: bool,
    ) -> (r: Result<Self, Error>)
        ensures
            (r is Ok) <==> doc_wf(doc),
            r matches Ok(m) ==> m.wf() && m.has_features_table() && m.loaded_table()
                == doc_feature_table(doc) && m.table() == strip_stale(doc_feature_table(doc))
                && m.original_snapshot() == snap_of(doc_feature_table(doc)) && m.env()
                == views_of(env_vars@).to_set() && m.prevents() == prevent_build_when_changed,
            r matches Err(e) ==> e matches Error::MalformedManifest(n) && n@ == doc_bad_feature(
                doc,
            ),
    {
        let snapshot = match read_features(&doc) {
            Ok(v) => v,
            Err(name) => {
                return Err(Error::MalformedManifest(name));
            },
        };
        let mut m = ManifestWithFeatureCollector {
            doc,
            original: snapshot,
            env_vars,
            prevent_build_when_changed,
        };
        ensure_features_table(&mut m.doc);
        let ghost t0 = doc_feature_table(m.doc);
        proof {
            lemma_table_of_lookup(m.original@);
        }
        let mut marked: Vec<String> = Vec::new();
        let mut i: usize = 0;
        while i < m.original.len()
            invariant
                i <= m.original@.len(),
                forall|x: Seq<char>|
                    views_of(marked@).contains(x) <==> exists|j: int|
                        0 <= j < i && #[trigger] m.original@[j].name@ == x && is_marked(
                            m.original@[j].decor@,
                        ),
            decreases m.original@.len() - i,
        {
            let f = &m.original[i];
            let ghost before = marked@;
            let fm = is_marked_str(f.decor.as_str());
            if fm {
                marked.push(f.name.clone());
            }
            proof {
                if fm {
                    assert(views_of(marked@) =~= views_of(before).push(m.original@[i as int].name@));
                }
                assert forall|x: Seq<char>| views_of(marked@).contains(x) implies exists|j: int|
                    0 <= j < i + 1 && #[trigger] m.original@[j].name@ == x && is_marked(
                        m.original@[j].decor@,
                    ) by {
                    let l = choose|l: int|
                        0 <= l < views_of(marked@).len() && views_of(marked@)[l] == x;
                    if l < views_of(before).len() {
                        assert(views_of(before)[l] == x);
                        assert(views_of(before).contains(x));
                    } else {
                        assert(m.original@[i as int].name@ == x);
                    }
                }
                assert forall|x: Seq<char>|
                    (exists|j: int|
                        0 <= j < i + 1 && #[trigger] m.original@[j].name@ == x && is_marked(
                            m.original@[j].decor@,
                        )) implies views_of(marked@).contains(x) by {
                    let j = choose|j: int|
                        0 <= j < i + 1 && #[trigger] m.original@[j].name@ == x && is_marked(
                            m.original@[j].decor@,
                        );
                    if j < i {
                        assert(views_of(before).contains(x));
                        let l = choose|l: int|
                            0 <= l < views_of(before).len() && views_of(before)[l] == x;
                        assert(views_of(marked@)[l] == x);
                    } else {
                        assert(fm);
                        assert(views_of(marked@)[views_of(before).len() as int] == x);
                    }
                }
            }
            i += 1;
        }
        proof {
            assert(views_of(marked@).to_set() =~= marked_keys(t0)) by {
                assert forall|x: Seq<char>| views_of(marked@).to_set().contains(x)
                    implies marked_keys(t0).contains(x) by {
                    let j = choose|j: int|
                        0 <= j < m.original@.len() && #[trigger] m.original@[j].name@ == x
                            && is_marked(m.original@[j].decor@);
                    assert(m.original@.map_values(|f2: RawFeature| f2.name@)[j] == x);
                    assert(m.original@.map_values(|f2: RawFeature| f2.name@).contains(x));
                    assert(t0.dom().contains(x));
                    assert(t0[x] == raw_model(m.original@[j]));
                    assert(is_marked(t0[x].decor));
                }
                assert forall|x: Seq<char>| marked_keys(t0).contains(x) implies views_of(
                    marked@,
                ).to_set().contains(x) by {
                    let names = m.original@.map_values(|f2: RawFeature| f2.name@);
                    assert(names.contains(x));
                    let j = choose|j: int| 0 <= j < names.len() && names[j] == x;
                    assert(m.original@[j].name@ == x);
                    assert(t0[x] == raw_model(m.original@[j]));
                    assert(is_marked(m.original@[j].decor@));
                }
            }
        }
        let ghost m0 = m;
        let mut j: usize = 0;
        while j < marked.len()
            invariant
                j <= marked@.len(),
                views_of(marked@).to_set() == marked_keys(t0),
                doc_wf(m.doc),
                doc_has_features(m.doc),
                m.original == m0.original,
                m.env_vars == m0.env_vars,
                m.prevent_build_when_changed == m0.prevent_build_when_changed,
                distinct_names(m.original@),
                t0 == table_of(m.original@),
                doc_feature_table(m.doc) == t0.remove_keys(
                    views_of(marked@.take(j as int)).to_set(),
                ),
            decreases marked@.len() - j,
        {
            let name = &marked[j];
            remove_feature(&mut m.doc, name.as_str());
            proof {
                assert(views_of(marked@.take(j + 1)) =~= views_of(marked@.take(j as int)).push(
                    marked@[j as int]@,
                ));
                crate::manifest::text::lemma_to_set_push(
                    views_of(marked@.take(j as int)),
                    marked@[j as int]@,
                );
                assert(doc_feature_table(m.doc) =~= t0.remove_keys(
                    views_of(marked@.take(j + 1)).to_set(),
                ));
            }
            j += 1;
        }
        proof {
            assert(marked@.take(marked@.len() as int) =~= marked@);
            assert(doc_feature_table(m.doc) =~= strip_stale(t0));
        }
        Ok(m)
    }

    /// Loads the collector from the manifest text, the names of the present
    /// environment variables, and the abort-on-change policy.
    pub fn load(
        manifest_text: &str,
        env_vars: Vec<String>,
        prevent_build_when_changed: bool,
    ) -> (r: Result<Self, Error>)
        ensures
            (r is Ok) <==> toml_parses(manifest_text@) && parsed_wf(manifest_text@),
            r matches Ok(m) ==> m.wf() && m.has_features_table() && m.loaded_table()
                == parsed_table(manifest_text@)
                && m.table() == strip_stale(parsed_table(manifest_text@))
                && m.original_snapshot() == snap_of(parsed_table(manifest_text@)) && m.env()
                == views_of(env_vars@).to_set() && m.prevents() == prevent_build_when_changed,
            !toml_parses(manifest_text@) ==> (r matches Err(e) && e is ParseError),
            toml_parses(manifest_text@) && !parsed_wf(manifest_text@) ==> (r matches Err(e)
                && e matches Error::MalformedManifest(n) && n@ == parsed_bad_feature(
                manifest_text@,
            )),
    {
        let doc = match parse_document(manifest_text) {
            Ok(d) => d,
            Err(e) => {
                return Err(Error::ParseError(e));
            },
        };
        Self::from_document(doc, env_vars, prevent_build_when_changed)
    }
}

/// The table described by a read-out: its keys are the read names, and each
/// name maps to its entry.
pub proof fn lemma_table_of_lookup(v: Seq<RawFeature>)
    ensures
        table_of(v).dom() == v.map_values(|f: RawFeature| f.name@).to_set(),
        distinct_names(v) ==> forall|i: int|
            0 <= i < v.len() ==> table_of(v)[#[trigger] v[i].name@] == raw_model(v[i]),
    decreases v.len(),
{
    if v.len() == 0 {
        assert(table_of(v).dom() =~= v.map_values(|f: RawFeature| f.name@).to_set()) by {
            assert(v.map_values(|f: RawFeature| f.name@) =~= Seq::<Seq<char>>::empty());
        }
    } else {
        let rest = v.drop_last();
        lemma_table_of_lookup(rest);
        let names = v.map_values(|f: RawFeature| f.name@);
        let rnames = rest.map_values(|f: RawFeature| f.name@);
        assert(names =~= rnames.push(v.last().name@));
        assert(table_of(v).dom() =~= names.to_set()) by {
            assert forall|x: Seq<char>| names.to_set().contains(x) implies table_of(
                v,
            ).dom().contains(x) by {
                let l = choose|l: int| 0 <= l < names.len() && names[l] == x;
                if l < rnames.len() {
                    assert(rnames[l] == x);
                    assert(rnames.contains(x));
                }
            }
            assert forall|x: Seq<char>| table_of(v).dom().contains(x) implies names.to_set().contains(
                x,
            ) by {
                if x == v.last().name@ {
                    assert(names[names.len() - 1] == x);
                } else {
                    assert(rnames.contains(x));
                    let l = choose|l: int| 0 <= l < rnames.len() && rnames[l] == x;
                    assert(names[l] == x);
                }
            }
        }
        if distinct_names(v) {
            assert forall|i: int| 0 <= i < v.len() implies table_of(v)[#[trigger] v[i].name@]
                == raw_model(v[i]) by {
                assert(forall|a: int, b: int|
                    0 <= a < b < v.len() ==> v[a].name@ != v[b].name@);
                if i == v.len() - 1 {
                } else {
                    assert(rest[i] == v[i]);
                    assert(v[i].name@ != v.last().name@);
                }
            }
        }
    }
}


/// The pairs as they stand in specifications: each with its name's view.
pub open spec fn pair_views<T>(ps: Seq<(T, String)>) -> Seq<(T, Seq<char>)> {
    ps.map_values(|p: (T, String)| (p.0, p.1@))
}

/// The descriptors of a selection, without their names.
pub open spec fn firsts_of<T>(s: Seq<(T, Seq<char>)>) -> Seq<T> {
    s.map_values(|p: (T, Seq<char>)| p.0)
}

/// The names of a selection, in order.
pub open spec fn names_of_selection<T>(s: Seq<(T, Seq<char>)>) -> Seq<Seq<char>> {
    s.map_values(|p: (T, Seq<char>)| p.1)
}

impl ManifestWithFeatureCollector {
    /// Regenerates one entry per descriptor, in input order: auto-links a
    /// hand-written `__<name>` entry, lets the setter declare dependencies,
    /// writes the sorted, marker-tagged entry, and collects the descriptors
    /// whose environment indicator is present.
    fn add_features_named<T, S: DependencySetter<T>, F: FeatureNameFormatter<T>>(
        &mut self,
        features: Vec<T>,
        dependency_setter: &S,
        feature_name_formatter: &F,
    ) -> (r: Vec<(T, String)>)
        requires
            old(self).wf(),
        ensures
            final(self).wf(),
            final(self).has_features_table(),
            final(self).env() == old(self).env(),
            final(self).prevents() == old(self).prevents(),
            final(self).original_snapshot() == old(self).original_snapshot(),
            final(self).loaded_table() == old(self).loaded_table(),
            exists|gens: Seq<Gen>| #![auto]
                gens.len() == features@.len() && gens_ok(
                    old(self).table(),
                    final(self).table(),
                    gens,
                ) && (forall|i: int|
                    0 <= i < gens.len() ==> gens[i].name == #[trigger] feature_name_formatter.name_spec(
                        features@[i],
                    )) && pair_views(r@) == selected_of(features@, gens, old(self).env()),
    {
        let ghost t0 = doc_feature_table(self.doc);
        let ghost all = features@;
        let ghost env_set = self.env();
        let mut feats = features;
        let mut out: Vec<(T, String)> = Vec::new();
        let ghost mut gens: Seq<Gen> = Seq::<Gen>::empty();
        proof {
            assert(feats@ =~= all.skip(0));
            assert(pair_views(out@) =~= Seq::<(T, Seq<char>)>::empty());
            assert(all.take(0).len() == 0);
        }
        while feats.len() > 0
            invariant
                gens.len() + feats@.len() == all.len(),
                feats@ == all.skip(gens.len() as int),
                self.original == old(self).original,
                self.env_vars == old(self).env_vars,
                self.prevent_build_when_changed == old(self).prevent_build_when_changed,
                doc_wf(self.doc),
                doc_has_features(self.doc),
                env_set == views_of(self.env_vars@).to_set(),
                doc_feature_table(self.doc) == apply_gens(t0, gens),
                forall|i: int|
                    0 <= i < gens.len() ==> renders_edges(#[trigger] gens[i].deps, gens[i].edges),
                forall|i: int|
                    0 <= i < gens.len() ==> gens[i].name == #[trigger] feature_name_formatter.name_spec(
                        all[i],
                    ),
                forall|i: int|
                    0 <= i < gens.len() ==> (hand_written(
                        doc_feature_table(self.doc),
                        underscored(#[trigger] gens[i].name),
                    ) ==> gens[i].edges.contains(
                        DepModel::Simple { name: underscored(gens[i].name) },
                    )),
                forall|k: Seq<char>|
                    #[trigger] hand_written(doc_feature_table(self.doc), k) ==> hand_written(t0, k)
                        && doc_feature_table(self.doc)[k] == t0[k],
                forall|i: int|
                    0 <= i < gens.len() ==> (hand_written(
                        doc_feature_table(self.doc),
                        underscored(#[trigger] gens[i].name),
                    ) ==> doc_feature_table(self.doc).dom().contains(gens[i].name)
                        && doc_feature_table(self.doc)[gens[i].name].deps.contains(
                        underscored(gens[i].name),
                    )),
                pair_views(out@) == selected_of(all.take(gens.len() as int), gens, env_set),
            decreases feats@.len(),
        {
            let ghost gens0 = gens;
            let ghost cur0 = doc_feature_table(self.doc);
            let ghost i: int = gens.len() as int;
            let t = feats.remove(0);
            proof {
                assert(all.skip(i)[0] == all[i]);
                assert(feats@ =~= all.skip(i + 1));
            }
            let name = feature_name_formatter.feature_name(&t);
            proof {
                assert(name@ == feature_name_formatter.name_spec(all[i]));
            }
            let mut helper = DependencyHelper::new(name.clone());
            let auto_name = "__".to_owned().concat(name.as_str());
            proof {
                assert(auto_name@ == underscored(name@));
            }
            let hand = match feature_decor(&self.doc, auto_name.as_str()) {
                Some(d) => !is_marked_str(d.as_str()),
                None => false,
            };
            proof {
                assert(hand == hand_written(cur0, underscored(name@)));
            }
            if hand {
                helper.insert_edge(Dependency::Simple(auto_name));
            }
            let ghost pre_edges = helper.edges();
            proof {
                if hand {
                    assert(pre_edges.contains(DepModel::Simple { name: underscored(name@) }));
                }
            }
            dependency_setter.set(&t, &mut helper);
            let ghost h0 = helper;
            let strs = helper.into_sorted_strings();
            proof {
                if hand {
                    let e = DepModel::Simple { name: underscored(name@) };
                    assert(h0.edges().contains(e));
                    assert(dep_str(e) == underscored(name@));
                    assert(views_of(strs@).contains(underscored(name@)));
                }
                assert(renders_edges(views_of(strs@), h0.edges()));
            }
            set_feature(&mut self.doc, name.as_str(), &strs, generated_marker());
            let ghost g = Gen { name: name@, deps: views_of(strs@), edges: h0.edges() };
            proof {
                gens = gens0.push(g);
                assert(gens.drop_last() =~= gens0);
                assert(gens.last() == g);
                assert(gen_model(g) == FeatureModel {
                    deps: views_of(strs@),
                    decor: marker_view(),
                });
                let cur1 = doc_feature_table(self.doc);
                assert(cur1 == cur0.insert(name@, gen_model(g)));
                assert(cur1 == apply_gens(t0, gens));
                assert(is_marked(marker_view()));
                reveal_strlit("__");
                assert(underscored(name@).len() == name@.len() + 2);
                assert forall|k: Seq<char>| #[trigger] hand_written(cur1, k) implies hand_written(
                    t0,
                    k,
                ) && cur1[k] == t0[k] by {
                    if k == name@ {
                        assert(cur1[k].decor == marker_view());
                    } else {
                        assert(cur1[k] == cur0[k]);
                        assert(hand_written(cur0, k));
                    }
                }
                assert forall|ii: int| 0 <= ii < gens.len() implies (hand_written(
                    cur1,
                    underscored(#[trigger] gens[ii].name),
                ) ==> cur1.dom().contains(gens[ii].name) && cur1[gens[ii].name].deps.contains(
                    underscored(gens[ii].name),
                )) by {
                    if ii == i {
                        if hand_written(cur1, underscored(name@)) {
                            assert(underscored(name@) != name@);
                            assert(cur1[name@] == gen_model(g));
                            assert(cur1[name@].deps.contains(underscored(name@))) by {
                                assert(cur1[underscored(name@)] == cur0[underscored(name@)]);
                                assert(hand_written(cur0, underscored(name@)));
                                assert(views_of(strs@).contains(underscored(name@)));
                            }
                        }
                    } else {
                        assert(gens[ii] == gens0[ii]);
                        let gname = gens0[ii].name;
                        if hand_written(cur1, underscored(gname)) {
                            if underscored(gname) == name@ {
                                assert(cur1[name@].decor == marker_view());
                                assert(false);
                            } else {
                                assert(cur1[underscored(gname)] == cur0[underscored(gname)]);
                                assert(hand_written(cur0, underscored(gname)));
                                if gname == name@ {
                                    assert(hand);
                                    assert(cur1[gname] == gen_model(g));
                                    assert(cur1[gname].deps.contains(underscored(gname)));
                                } else {
                                    assert(cur1[gname] == cur0[gname]);
                                    assert(cur0.dom().contains(gname));
                                }
                            }
                        }
                    }
                }
                assert forall|ii: int| 0 <= ii < gens.len() implies (hand_written(
                    cur1,
                    underscored(#[trigger] gens[ii].name),
                ) ==> gens[ii].edges.contains(
                    DepModel::Simple { name: underscored(gens[ii].name) },
                )) by {
                    if ii == i {
                        if hand_written(cur1, underscored(name@)) {
                            assert(underscored(name@) != name@);
                            assert(cur1[underscored(name@)] == cur0[underscored(name@)]);
                            assert(hand_written(cur0, underscored(name@)));
                            assert(hand);
                            assert(g.edges.contains(DepModel::Simple { name: underscored(name@) }));
                        }
                    } else {
                        assert(gens[ii] == gens0[ii]);
                        let gname = gens0[ii].name;
                        if hand_written(cur1, underscored(gname)) {
                            if underscored(gname) == name@ {
                                assert(cur1[name@].decor == marker_view());
                                assert(false);
                            } else {
                                assert(cur1[underscored(gname)] == cur0[underscored(gname)]);
                                assert(hand_written(cur0, underscored(gname)));
                            }
                        }
                    }
                }
                assert forall|ii: int| 0 <= ii < gens.len() implies gens[ii].name
                    == #[trigger] feature_name_formatter.name_spec(all[ii]) by {
                    if ii < i {
                        assert(gens[ii] == gens0[ii]);
                    }
                }
            }
            let ev = env_var_name_of(name.as_str());
            let sel = vec_contains_str(&self.env_vars, ev.as_str());
            proof {
                assert(ev@ == env_var_name(g.name));
                assert(env_set.contains(ev@) == views_of(self.env_vars@).contains(ev@));
            }
            let ghost out0 = out@;
            if sel {
                out.push((t, name));
            }
            proof {
                assert(all.take(i + 1).drop_last() =~= all.take(i));
                assert(all.take(i + 1).last() == all[i]);
                assert(all.take(i + 1).len() == i + 1);
                if sel {
                    assert(pair_views(out@) =~= pair_views(out0).push((all[i], g.name)));
                    assert(selected_of(all.take(i + 1), gens, env_set) == selected_of(
                        all.take(i),
                        gens0,
                        env_set,
                    ).push((all[i], g.name)));
                } else {
                    assert(selected_of(all.take(i + 1), gens, env_set) == selected_of(
                        all.take(i),
                        gens0,
                        env_set,
                    ));
                }
            }
        }
        proof {
            assert(all.take(all.len() as int) =~= all);
            assert(gens.len() == all.len());
            assert(gens_ok(t0, doc_feature_table(self.doc), gens));
        }
        out
    }

    /// Adds features as a group, naming each with the given formatter.
    ///
    /// Returns every chosen feature: those whose environment indicator is
    /// present, in input order.
    pub fn add_features_with_formatter<T, S: DependencySetter<T>, F: FeatureNameFormatter<T>>(
        &mut self,
        features: Vec<T>,
        dependency_setter: &S,
        feature_name_formatter: &F,
    ) -> (r: Result<Vec<T>, Error>)
        requires
            old(self).wf(),
        ensures
            final(self).wf(),
            final(self).has_features_table(),
            final(self).env() == old(self).env(),
            final(self).prevents() == old(self).prevents(),
            final(self).original_snapshot() == old(self).original_snapshot(),
            final(self).loaded_table() == old(self).loaded_table(),
            exists|gens: Seq<Gen>| #![auto]
                gens.len() == features@.len() && gens_ok(
                    old(self).table(),
                    final(self).table(),
                    gens,
                ) && (forall|i: int|
                    0 <= i < gens.len() ==> gens[i].name == #[trigger] feature_name_formatter.name_spec(
                        features@[i],
                    )) && (r matches Ok(v) && v@ == firsts_of(
                    selected_of(features@, gens, old(self).env()),
                )),
    {
        let ghost fs = features@;
        let pairs = self.add_features_named(features, dependency_setter, feature_name_formatter);
        let ghost gens = choose|gens: Seq<Gen>| #![auto]
            gens.len() == fs.len() && gens_ok(old(self).table(), self.table(), gens) && (forall|
                i: int,
            |
                0 <= i < gens.len() ==> gens[i].name == #[trigger] feature_name_formatter.name_spec(
                    fs[i],
                )) && pair_views(pairs@) == selected_of(fs, gens, old(self).env());
        let ghost allp = pairs@;
        let mut ps = pairs;
        let mut v: Vec<T> = Vec::new();
        proof {
            assert(ps@ =~= allp.skip(0));
            assert(v@ =~= firsts_of(pair_views(allp.take(0))));
        }
        while ps.len() > 0
            invariant
                v@.len() + ps@.len() == allp.len(),
                ps@ == allp.skip(v@.len() as int),
                v@ == firsts_of(pair_views(allp.take(v@.len() as int))),
            decreases ps@.len(),
        {
            let ghost k: int = v@.len() as int;
            let p = ps.remove(0);
            proof {
                assert(allp.skip(k)[0] == allp[k]);
                assert(ps@ =~= allp.skip(k + 1));
            }
            v.push(p.0);
            proof {
                assert(allp.take(k + 1).drop_last() =~= allp.take(k));
                assert(allp.take(k + 1).last() == allp[k]);
                assert(pair_views(allp.take(k + 1)) =~= pair_views(allp.take(k)).push(
                    (allp[k].0, allp[k].1@),
                ));
                assert(v@ =~= firsts_of(pair_views(allp.take(k + 1))));
            }
        }
        proof {
            assert(allp.take(allp.len() as int) =~= allp);
            assert(v@ == firsts_of(selected_of(fs, gens, old(self).env())));
        }
        Ok(v)
    }

    /// Adds features as a group, named by their own `to_feature_name`.
    ///
    /// Returns every chosen feature: those whose environment indicator is
    /// present, in input order.
    pub fn add_features<T: ToFeatureName, S: DependencySetter<T>>(
        &mut self,
        features: Vec<T>,
        dependency_setter: &S,
    ) -> (r: Result<Vec<T>, Error>)
        requires
            old(self).wf(),
        ensures
            final(self).wf(),
            final(self).has_features_table(),
            final(self).env() == old(self).env(),
            final(self).prevents() == old(self).prevents(),
            final(self).original_snapshot() == old(self).original_snapshot(),
            final(self).loaded_table() == old(self).loaded_table(),
            exists|gens: Seq<Gen>| #![auto]
                gens.len() == features@.len() && gens_ok(
                    old(self).table(),
                    final(self).table(),
                    gens,
                ) && (forall|i: int|
                    0 <= i < gens.len() ==> gens[i].name == #[trigger] features@[i].name_spec())
                    && (r matches Ok(v) && v@ == firsts_of(
                    selected_of(features@, gens, old(self).env()),
                )),
    {
        let ghost fs = features@;
        let r = self.add_features_with_formatter(features, dependency_setter, &ToFeatureNameFormatter);
        proof {
            let gens = choose|gens: Seq<Gen>| #![auto]
                gens.len() == fs.len() && gens_ok(old(self).table(), self.table(), gens) && (forall|
                    i: int,
                |
                    0 <= i < gens.len() ==> gens[i].name
                        == #[trigger] ToFeatureNameFormatter.name_spec(fs[i])) && (r matches Ok(v)
                    && v@ == firsts_of(selected_of(fs, gens, self.env())));
            assert forall|i: int| 0 <= i < gens.len() implies gens[i].name
                == #[trigger] fs[i].name_spec() by {
                assert(ToFeatureNameFormatter.name_spec(fs[i]) == fs[i].name_spec());
            }
        }
        r
    }

    /// Adds mutually exclusive features, naming each with the given
    /// formatter: at most one of them may be chosen, and choosing several
    /// fails with all their names, in selection order.
    pub fn add_mutually_exclusive_features_with_formatter<
        T,
        S: DependencySetter<T>,
        F: FeatureNameFormatter<T>,
    >(
        &mut self,
        features: Vec<T>,
        dependency_setter: &S,
        feature_name_formatter: &F,
    ) -> (r: Result<Option<T>, Error>)
        requires
            old(self).wf(),
        ensures
            final(self).wf(),
            final(self).has_features_table(),
            final(self).env() == old(self).env(),
            final(self).prevents() == old(self).prevents(),
            final(self).original_snapshot() == old(self).original_snapshot(),
            final(self).loaded_table() == old(self).loaded_table(),
            exists|gens: Seq<Gen>| #![auto]
                gens.len() == features@.len() && gens_ok(
                    old(self).table(),
                    final(self).table(),
                    gens,
                ) && (forall|i: int|
                    0 <= i < gens.len() ==> gens[i].name == #[trigger] feature_name_formatter.name_spec(
                        features@[i],
                    )) && (selected_of(features@, gens, old(self).env()).len() > 1 ==> (r matches Err(e)
                    && e matches Error::MutualExclusiveFeatureError(ns) && views_of(ns@)
                    == names_of_selection(selected_of(features@, gens, old(self).env()))))
                    && (selected_of(features@, gens, old(self).env()).len() == 1 ==> (r matches Ok(
                    o,
                ) && o matches Some(t) && t == selected_of(features@, gens, old(self).env())[0].0))
                    && (selected_of(features@, gens, old(self).env()).len() == 0 ==> (r matches Ok(
                    o,
                ) && o is None)),
    {
        let ghost fs = features@;
        let pairs = self.add_features_named(features, dependency_setter, feature_name_formatter);
        let ghost gens = choose|gens: Seq<Gen>| #![auto]
            gens.len() == fs.len() && gens_ok(old(self).table(), self.table(), gens) && (forall|
                i: int,
            |
                0 <= i < gens.len() ==> gens[i].name == #[trigger] feature_name_formatter.name_spec(
                    fs[i],
                )) && pair_views(pairs@) == selected_of(fs, gens, old(self).env());
        let ghost sel = selected_of(fs, gens, old(self).env());
        proof {
            assert(pairs@.len() == sel.len());
        }
        if pairs.len() > 1 {
            let ghost allp = pairs@;
            let mut ps = pairs;
            let mut names: Vec<String> = Vec::new();
            proof {
                assert(ps@ =~= allp.skip(0));
                assert(views_of(names@) =~= names_of_selection(pair_views(allp.take(0))));
            }
            while ps.len() > 0
                invariant
                    names@.len() + ps@.len() == allp.len(),
                    ps@ == allp.skip(names@.len() as int),
                    views_of(names@) == names_of_selection(pair_views(allp.take(names@.len() as int))),
                decreases ps@.len(),
            {
                let ghost k: int = names@.len() as int;
                let ghost n0 = names@;
                let p = ps.remove(0);
                proof {
                    assert(allp.skip(k)[0] == allp[k]);
                    assert(ps@ =~= allp.skip(k + 1));
                }
                names.push(p.1);
                proof {
                    assert(allp.take(k + 1).drop_last() =~= allp.take(k));
                    assert(allp.take(k + 1).last() == allp[k]);
                    assert(pair_views(allp.take(k + 1)) =~= pair_views(allp.take(k)).push(
                        (allp[k].0, allp[k].1@),
                    ));
                    assert(views_of(names@) =~= views_of(n0).push(p.1@));
                    assert(names_of_selection(
                        pair_views(allp.take(k)).push((allp[k].0, allp[k].1@)),
                    ) =~= names_of_selection(pair_views(allp.take(k))).push(allp[k].1@));
                    assert(views_of(names@) =~= names_of_selection(pair_views(allp.take(k + 1))));
                }
            }
            proof {
                assert(allp.take(allp.len() as int) =~= allp);
                assert(views_of(names@) == names_of_selection(sel));
            }
            Err(Error::MutualExclusiveFeatureError(names))
        } else if pairs.len() == 1 {
            let mut ps = pairs;
            let p = ps.remove(0);
            proof {
                assert(pair_views(ps@.insert(0, p))[0] == sel[0]);
            }
            Ok(Some(p.0))
        } else {
            Ok(None)
        }
    }

    /// Adds mutually exclusive features named by their own
    /// `to_feature_name`: at most one of them may be chosen, and choosing
    /// several fails with all their names, in selection order.
    pub fn add_mutually_exclusive_features<T: ToFeatureName, S: DependencySetter<T>>(
        &mut self,
        features: Vec<T>,
        dependency_setter: &S,
    ) -> (r: Result<Option<T>, Error>)
        requires
            old(self).wf(),
        ensures
            final(self).wf(),
            final(self).has_features_table(),
            final(self).env() == old(self).env(),
            final(self).prevents() == old(self).prevents(),
            final(self).original_snapshot() == old(self).original_snapshot(),
            final(self).loaded_table() == old(self).loaded_table(),
            exists|gens: Seq<Gen>| #![auto]
                gens.len() == features@.len() && gens_ok(
                    old(self).table(),
                    final(self).table(),
                    gens,
                ) && (forall|i: int|
                    0 <= i < gens.len() ==> gens[i].name == #[trigger] features@[i].name_spec())
                    && (selected_of(features@, gens, old(self).env()).len() > 1 ==> (r matches Err(e)
                    && e matches Error::MutualExclusiveFeatureError(ns) && views_of(ns@)
                    == names_of_selection(selected_of(features@, gens, old(self).env()))))
                    && (selected_of(features@, gens, old(self).env()).len() == 1 ==> (r matches Ok(
                    o,
                ) && o matches Some(t) && t == selected_of(features@, gens, old(self).env())[0].0))
                    && (selected_of(features@, gens, old(self).env()).len() == 0 ==> (r matches Ok(
                    o,
                ) && o is None)),
    {
        let ghost fs = features@;
        let r = self.add_mutually_exclusive_features_with_formatter(
            features,
            dependency_setter,
            &ToFeatureNameFormatter,
        );
        proof {
            let gens = choose|gens: Seq<Gen>| #![auto]
                gens.len() == fs.len() && gens_ok(old(self).table(), self.table(), gens) && (forall|
                    i: int,
                |
                    0 <= i < gens.len() ==> gens[i].name
                        == #[trigger] ToFeatureNameFormatter.name_spec(fs[i])) && (selected_of(
                    fs,
                    gens,
                    self.env(),
                ).len() > 1 ==> (r matches Err(e) && e matches Error::MutualExclusiveFeatureError(
                    ns,
                ) && views_of(ns@) == names_of_selection(selected_of(fs, gens, self.env()))))
                    && (selected_of(fs, gens, self.env()).len() == 1 ==> (r matches Ok(o)
                    && o matches Some(t) && t == selected_of(fs, gens, self.env())[0].0)) && (
                selected_of(fs, gens, self.env()).len() == 0 ==> (r matches Ok(o) && o is None));
            assert forall|i: int| 0 <= i < gens.len() implies gens[i].name
                == #[trigger] fs[i].name_spec() by {
                assert(ToFeatureNameFormatter.name_spec(fs[i]) == fs[i].name_spec());
            }
        }
        r
    }

    /// Finishes the run: re-collects the feature table, compares it to the
    /// loaded snapshot ignoring dependency order, and hands back the text to
    /// persist exactly when something changed, with the abort decision the
    /// policy asks for. Consumes the collector: nothing can mutate the
    /// manifest after the write decision.
    pub fn write(self) -> (r: WriteOutcome)
        requires
            self.wf(),
        ensures
            r.changed == (self.current_snapshot() != self.original_snapshot()),
            (r.content is Some) == r.changed,
            r.content matches Some(s) ==> s@ == self.rendered_text(),
            r.abort_build == (r.changed && self.prevents()),
    {
        let current = match read_features(&self.doc) {
            Ok(v) => v,
            Err(_) => {
                proof {
                    assert(false);
                }
                Vec::new()
            },
        };
        let unchanged = snapshot_eq(&self.original, &current);
        if unchanged {
            WriteOutcome { changed: false, content: None, abort_build: false }
        } else {
            let text = render_document(&self.doc);
            WriteOutcome {
                changed: true,
                content: Some(text),
                abort_build: self.prevent_build_when_changed,
            }
        }
    }
}

/// The position of the entry with this name, if any.
fn find_name(v: &Vec<RawFeature>, name: &str) -> (o: Option<usize>)
    ensures
        o matches Some(i) ==> i < v@.len() && v@[i as int].name@ == name@,
        (o is None) ==> forall|j: int| 0 <= j < v@.len() ==> v@[j].name@ != name@,
{
    let mut i: usize = 0;
    while i < v.len()
        invariant
            i <= v@.len(),
            forall|j: int| 0 <= j < i ==> v@[j].name@ != name@,
        decreases v@.len() - i,
    {
        if str_eq(v[i].name.as_str(), name) {
            return Some(i);
        }
        i += 1;
    }
    None
}

/// Whether every string of the first vector occurs in the second.
fn dep_views_subset(x: &Vec<String>, y: &Vec<String>) -> (r: bool)
    ensures
        r == views_of(x@).to_set().subset_of(views_of(y@).to_set()),
{
    let mut i: usize = 0;
    while i < x.len()
        invariant
            i <= x@.len(),
            forall|j: int| 0 <= j < i ==> views_of(y@).contains(#[trigger] views_of(x@)[j]),
        decreases x@.len() - i,
    {
        if !vec_contains_str(y, x[i].as_str()) {
            proof {
                assert(views_of(x@)[i as int] == x@[i as int]@);
                assert(views_of(x@).to_set().contains(x@[i as int]@));
                assert(!views_of(y@).to_set().contains(x@[i as int]@));
            }
            return false;
        }
        proof {
            assert(views_of(x@)[i as int] == x@[i as int]@);
        }
        i += 1;
    }
    proof {
        assert forall|e: Seq<char>| views_of(x@).to_set().contains(e) implies views_of(
            y@,
        ).to_set().contains(e) by {
            let j = choose|j: int| 0 <= j < views_of(x@).len() && views_of(x@)[j] == e;
            assert(views_of(y@).contains(views_of(x@)[j]));
        }
    }
    true
}

/// Whether two dependency arrays hold the same set of strings.
fn dep_set_eq(x: &Vec<String>, y: &Vec<String>) -> (r: bool)
    ensures
        r == (views_of(x@).to_set() == views_of(y@).to_set()),
{
    let fwd = dep_views_subset(x, y);
    let bwd = dep_views_subset(y, x);
    proof {
        if fwd && bwd {
            assert(views_of(x@).to_set() =~= views_of(y@).to_set());
        }
    }
    fwd && bwd
}

/// Whether two read-outs describe the same snapshot: the same feature names,
/// each with the same set of dependency strings.
fn snapshot_eq(a: &Vec<RawFeature>, b: &Vec<RawFeature>) -> (r: bool)
    requires
        distinct_names(a@),
        distinct_names(b@),
    ensures
        r == (snap_of(table_of(a@)) == snap_of(table_of(b@))),
{
    proof {
        lemma_table_of_lookup(a@);
        lemma_table_of_lookup(b@);
    }
    let ghost sa = snap_of(table_of(a@));
    let ghost sb = snap_of(table_of(b@));
    let mut i: usize = 0;
    while i < a.len()
        invariant
            i <= a@.len(),
            distinct_names(a@),
            distinct_names(b@),
            sa == snap_of(table_of(a@)),
            sb == snap_of(table_of(b@)),
            table_of(a@).dom() == a@.map_values(|f: RawFeature| f.name@).to_set(),
            table_of(b@).dom() == b@.map_values(|f: RawFeature| f.name@).to_set(),
            forall|l: int|
                0 <= l < a@.len() ==> table_of(a@)[#[trigger] a@[l].name@] == raw_model(a@[l]),
            forall|l: int|
                0 <= l < b@.len() ==> table_of(b@)[#[trigger] b@[l].name@] == raw_model(b@[l]),
            forall|l: int|
                0 <= l < i ==> sb.dom().contains(#[trigger] a@[l].name@) && sb[a@[l].name@]
                    == sa[a@[l].name@],
        decreases a@.len() - i,
    {
        let name = &a[i].name;
        proof {
            assert(a@.map_values(|f: RawFeature| f.name@)[i as int] == a@[i as int].name@);
            assert(sa.dom().contains(a@[i as int].name@));
        }
        match find_name(b, name.as_str()) {
            None => {
                proof {
                    let names_b = b@.map_values(|f: RawFeature| f.name@);
                    if sb.dom().contains(a@[i as int].name@) {
                        let j = choose|j: int|
                            0 <= j < names_b.len() && names_b[j] == a@[i as int].name@;
                        assert(b@[j].name@ == a@[i as int].name@);
                        assert(false);
                    }
                    assert(sa != sb);
                }
                return false;
            },
            Some(j) => {
                let same = dep_set_eq(&a[i].deps, &b[j].deps);
                proof {
                    assert(b@.map_values(|f: RawFeature| f.name@)[j as int] == b@[j as int].name@);
                    assert(b@.map_values(|f: RawFeature| f.name@).contains(b@[j as int].name@));
                    assert(sb.dom().contains(b@[j as int].name@));
                    assert(table_of(a@)[a@[i as int].name@] == raw_model(a@[i as int]));
                    assert(table_of(b@)[b@[j as int].name@] == raw_model(b@[j as int]));
                    assert(sa[a@[i as int].name@] == raw_model(a@[i as int]).deps.to_set());
                    assert(sb[b@[j as int].name@] == raw_model(b@[j as int]).deps.to_set());
                }
                if !same {
                    proof {
                        assert(sa[a@[i as int].name@] != sb[a@[i as int].name@]);
                        assert(sa != sb);
                    }
                    return false;
                }
                proof {
                    assert(sb[a@[i as int].name@] == sa[a@[i as int].name@]);
                }
            },
        }
        i += 1;
    }
    let mut j: usize = 0;
    while j < b.len()
        invariant
            j <= b@.len(),
            distinct_names(a@),
            distinct_names(b@),
            sa == snap_of(table_of(a@)),
            sb == snap_of(table_of(b@)),
            table_of(a@).dom() == a@.map_values(|f: RawFeature| f.name@).to_set(),
            table_of(b@).dom() == b@.map_values(|f: RawFeature| f.name@).to_set(),
            forall|l: int|
                0 <= l < a@.len() ==> sb.dom().contains(#[trigger] a@[l].name@) && sb[a@[l].name@]
                    == sa[a@[l].name@],
            forall|l: int| 0 <= l < j ==> sa.dom().contains(#[trigger] b@[l].name@),
        decreases b@.len() - j,
    {
        let name = &b[j].name;
        match find_name(a, name.as_str()) {
            None => {
                proof {
                    assert(b@.map_values(|f: RawFeature| f.name@)[j as int] == b@[j as int].name@);
                    assert(sb.dom().contains(b@[j as int].name@));
                    let names_a = a@.map_values(|f: RawFeature| f.name@);
                    if sa.dom().contains(b@[j as int].name@) {
                        let l = choose|l: int|
                            0 <= l < names_a.len() && names_a[l] == b@[j as int].name@;
                        assert(a@[l].name@ == b@[j as int].name@);
                        assert(false);
                    }
                    assert(sa != sb);
                }
                return false;
            },
            Some(l) => {
                proof {
                    assert(b@.map_values(|f: RawFeature| f.name@)[j as int] == b@[j as int].name@);
                    assert(a@[l as int].name@ == b@[j as int].name@);
                    assert(a@.map_values(|f: RawFeature| f.name@)[l as int] == a@[l as int].name@);
                    assert(a@.map_values(|f: RawFeature| f.name@).contains(a@[l as int].name@));
                    assert(sa.dom().contains(b@[j as int].name@));
                }
            },
        }
        j += 1;
    }
    proof {
        assert(sa =~= sb) by {
            assert forall|k: Seq<char>| sa.dom().contains(k) implies sb.dom().contains(k)
                && sa[k] == sb[k] by {
                let names_a = a@.map_values(|f: RawFeature| f.name@);
                let l = choose|l: int| 0 <= l < names_a.len() && names_a[l] == k;
                assert(a@[l].name@ == k);
            }
            assert forall|k: Seq<char>| sb.dom().contains(k) implies sa.dom().contains(k) by {
                let names_b = b@.map_values(|f: RawFeature| f.name@);
                let l = choose|l: int| 0 <= l < names_b.len() && names_b[l] == k;
                assert(b@[l].name@ == k);
            }
        }
    }
    true
}

} // verus!
