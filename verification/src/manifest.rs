//! The dependency model of one feature entry: edges to other features,
//! conflict rules between the mandatory and the optional form of an edge,
//! and deterministic rendering of an edge set.

use vstd::prelude::*;
use vstd::string::StringExecFns;
use vstd::string::StrSliceExecFns;
use text::sort_strings;

mod text;
mod doc;
mod model;
mod with_collector;

pub use text::lex_leq;
pub use text::lex_sorted;
pub use text::env_var_name;
pub use text::upper_of;
pub use text::views_of;
pub use text::trim_spec;
pub use doc::doc_feature_table;
pub use doc::doc_render;
pub use doc::doc_wf;
pub use doc::table_of;
pub use doc::raw_model;
pub use doc::distinct_names;
pub use doc::RawFeature;
pub use model::generated_marker;
pub use model::marker_view;
pub use model::is_marked;
pub use model::strip_stale;
pub use model::lemma_strip_stale_props;
pub use model::snap_of;
pub use model::sync_table;
pub use model::apply_gens;
pub use model::lemma_sync_idempotent;
pub use model::lemma_second_run_unchanged;
pub use model::lemma_sorted_render_unique;
pub use model::FeatureModel;
pub use model::Gen;
pub use with_collector::ManifestWithFeatureCollector;
pub use with_collector::WriteOutcome;
pub use with_collector::DependencySetter;
pub use with_collector::FeatureNameFormatter;
pub use with_collector::selected_of;
pub use with_collector::gens_ok;
pub use with_collector::renders_edges;
pub use with_collector::hand_written;
pub use with_collector::underscored;

verus! {

/// Mathematical value of one dependency edge.
#[verifier::ext_equal]
pub enum DepModel {
    /// A feature of this package.
    Simple { name: Seq<char> },
    /// A feature of another package, always active.
    CrateFeature { krate: Seq<char>, feature: Seq<char> },
    /// A feature of another package, active only if that package is present.
    OptionalCrateFeature { krate: Seq<char>, feature: Seq<char> },
}

/// How one dependency edge is written in the manifest.
pub open spec fn dep_str(d: DepModel) -> Seq<char> {
    match d {
        DepModel::Simple { name } => name,
        DepModel::CrateFeature { krate, feature } => krate + seq!['/'] + feature,
        DepModel::OptionalCrateFeature { krate, feature } => krate + seq!['?', '/'] + feature,
    }
}

/// The edge against which a requested crate-feature edge is conflict-checked:
/// the same target in the other (mandatory or optional) form.
pub open spec fn opposite_edge(krate: Seq<char>, feature: Seq<char>, optional: bool) -> DepModel {
    if optional {
        DepModel::CrateFeature { krate, feature }
    } else {
        DepModel::OptionalCrateFeature { krate, feature }
    }
}

/// The edge stored for a requested crate-feature edge.
pub open spec fn requested_edge(krate: Seq<char>, feature: Seq<char>, optional: bool) -> DepModel {
    if optional {
        DepModel::OptionalCrateFeature { krate, feature }
    } else {
        DepModel::CrateFeature { krate, feature }
    }
}

/// One dependency edge of a generated feature.
#[derive(Debug, Clone, PartialEq, Eq, Hash)]
pub enum Dependency {
    Simple(String),
    CrateFeature(String, String),
    OptionalCrateFeature(String, String),
}

impl View for Dependency {
    type V = DepModel;

    open spec fn view(&self) -> DepModel {
        match self {
            Dependency::Simple(name) => DepModel::Simple { name: name@ },
            Dependency::CrateFeature(krate, feature) => DepModel::CrateFeature {
                krate: krate@,
                feature: feature@,
            },
            Dependency::OptionalCrateFeature(krate, feature) => DepModel::OptionalCrateFeature {
                krate: krate@,
                feature: feature@,
            },
        }
    }
}

impl Dependency {
    /// Renders the edge as it is written into the manifest array.
    pub fn into_string(self) -> (r: String)
        ensures
            r@ == dep_str(self@),
    {
        proof {
            reveal_strlit("/");
            reveal_strlit("?/");
        }
        match self {
            Dependency::Simple(feature) => feature,
            Dependency::CrateFeature(krate, feature) => {
                let r = krate.concat("/").concat(feature.as_str());
                proof {
                    assert(r@ =~= dep_str(Dependency::CrateFeature(krate, feature)@));
                }
                r
            },
            Dependency::OptionalCrateFeature(krate, feature) => {
                let r = krate.concat("?/").concat(feature.as_str());
                proof {
                    assert(r@ =~= dep_str(Dependency::OptionalCrateFeature(krate, feature)@));
                }
                r
            },
        }
    }
}

/// Tells whether two edges have the same mathematical value.
fn dep_eq(a: &Dependency, b: &Dependency) -> (r: bool)
    ensures
        r == (a@ == b@),
{
    match (a, b) {
        (Dependency::Simple(x), Dependency::Simple(y)) => {
            let r = *x == *y;
            proof {
                if r {
                    assert(a@ =~= b@);
                }
            }
            r
        },
        (Dependency::CrateFeature(xk, xf), Dependency::CrateFeature(yk, yf)) => {
            let r = *xk == *yk && *xf == *yf;
            proof {
                if r {
                    assert(a@ =~= b@);
                }
            }
            r
        },
        (Dependency::OptionalCrateFeature(xk, xf), Dependency::OptionalCrateFeature(yk, yf)) => {
            let r = *xk == *yk && *xf == *yf;
            proof {
                if r {
                    assert(a@ =~= b@);
                }
            }
            r
        },
        _ => false,
    }
}

/// Possible dependency errors from `DependencyHelper`.
#[derive(Debug, Clone, Copy)]
pub enum DependencyError {
    /// The same target is already reached in the other (mandatory/optional) form.
    Conflict,
    /// The dependency string holds more than one `/`.
    InvalidDependencyFormat,
}

/// Per-feature builder of a conflict-checked, deduplicated edge set.
pub struct DependencyHelper {
    feature_name: String,
    deps: Vec<Dependency>,
}

impl DependencyHelper {
    /// The set of edges collected so far.
    pub closed spec fn edges(self) -> Set<DepModel> {
        self.deps@.map_values(|d: Dependency| d@).to_set()
    }

    /// The feature this helper collects edges for.
    pub closed spec fn feature(self) -> Seq<char> {
        self.feature_name@
    }

    /// No two stored edges have the same value.
    pub closed spec fn wf(self) -> bool {
        forall|i: int, j: int|
            0 <= i < j < self.deps@.len() ==> self.deps@[i]@ != self.deps@[j]@
    }

    /// Creates a helper for the named feature, with no edges.
    pub fn new(feature_name: String) -> (h: Self)
        ensures
            h.wf(),
            h.edges() == Set::<DepModel>::empty(),
            h.feature() == feature_name@,
    {
        let h = DependencyHelper { feature_name, deps: Vec::new() };
        proof {
            assert(h.deps@.map_values(|d: Dependency| d@) =~= Seq::<DepModel>::empty());
            assert(h.edges() =~= Set::<DepModel>::empty());
        }
        h
    }

    /// Tells whether an edge with this value is already stored.
    fn contains_edge(&self, d: &Dependency) -> (r: bool)
        ensures
            r == self.edges().contains(d@),
    {
        let mut i: usize = 0;
        while i < self.deps.len()
            invariant
                i <= self.deps@.len(),
                forall|j: int| 0 <= j < i ==> self.deps@[j]@ != d@,
            decreases self.deps@.len() - i,
        {
            if dep_eq(&self.deps[i], d) {
                proof {
                    assert(self.deps@.map_values(|x: Dependency| x@)[i as int] == d@);
                    assert(self.deps@.map_values(|x: Dependency| x@).contains(d@));
                }
                return true;
            }
            i += 1;
        }
        proof {
            let mapped = self.deps@.map_values(|x: Dependency| x@);
            assert forall|j: int| 0 <= j < mapped.len() implies mapped[j] != d@ by {
                assert(mapped[j] == self.deps@[j]@);
            }
            assert(!mapped.contains(d@));
        }
        false
    }

    /// Stores an edge unless an edge with the same value is already there.
    fn insert_edge(&mut self, d: Dependency)
        requires
            old(self).wf(),
        ensures
            final(self).wf(),
            final(self).edges() == old(self).edges().insert(d@),
            final(self).feature() == old(self).feature(),
    {
        let present = self.contains_edge(&d);
        if present {
            proof {
                assert(old(self).edges().insert(d@) =~= old(self).edges());
            }
        } else {
            proof {
                let ds = self.deps@;
                let mapped = ds.map_values(|x: Dependency| x@);
                assert forall|j: int| 0 <= j < ds.len() implies ds[j]@ != d@ by {
                    assert(mapped[j] == ds[j]@);
                    if ds[j]@ == d@ {
                        assert(mapped.contains(d@));
                    }
                }
            }
            self.deps.push(d);
            proof {
                let ds = old(self).deps@;
                let mapped = ds.map_values(|x: Dependency| x@);
                let mapped2 = self.deps@.map_values(|x: Dependency| x@);
                assert(mapped2 =~= mapped.push(d@));
                crate::manifest::text::lemma_to_set_push(mapped, d@);
            }
        }
    }

    /// Adds the edge for a feature of another package, conflict-checked:
    /// fails if the same target is already reached in the other form.
    fn add_crate_feature_dependency(
        &mut self,
        crate_name: &str,
        feature_name: &str,
        optional: bool,
    ) -> (r: Result<(), DependencyError>)
        requires
            old(self).wf(),
        ensures
            final(self).wf(),
            final(self).feature() == old(self).feature(),
            old(self).edges().contains(opposite_edge(crate_name@, feature_name@, optional))
                ==> (r matches Err(DependencyError::Conflict))
                    && final(self).edges() == old(self).edges(),
            !old(self).edges().contains(opposite_edge(crate_name@, feature_name@, optional))
                ==> (r matches Ok(()))
                    && final(self).edges() == old(self).edges().insert(
                        requested_edge(crate_name@, feature_name@, optional),
                    ),
    {
        let krate = crate_name.to_owned();
        let feature = feature_name.to_owned();
        let conflict = if optional {
            Dependency::CrateFeature(krate.clone(), feature.clone())
        } else {
            Dependency::OptionalCrateFeature(krate.clone(), feature.clone())
        };
        if self.contains_edge(&conflict) {
            Err(DependencyError::Conflict)
        } else {
            let stored = if optional {
                Dependency::OptionalCrateFeature(krate, feature)
            } else {
                Dependency::CrateFeature(krate, feature)
            };
            self.insert_edge(stored);
            Ok(())
        }
    }

    /// Forwards this helper's feature into the identically named feature of
    /// another package.
    pub fn propagate_to_crate(&mut self, crate_name: &str, optional: bool) -> (r: Result<
        (),
        DependencyError,
    >)
        requires
            old(self).wf(),
        ensures
            final(self).wf(),
            final(self).feature() == old(self).feature(),
            old(self).edges().contains(
                opposite_edge(crate_name@, old(self).feature(), optional),
            ) ==> (r matches Err(DependencyError::Conflict))
                && final(self).edges() == old(self).edges(),
            !old(self).edges().contains(
                opposite_edge(crate_name@, old(self).feature(), optional),
            ) ==> (r matches Ok(()))
                && final(self).edges() == old(self).edges().insert(
                    requested_edge(crate_name@, old(self).feature(), optional),
                ),
    {
        let feature = self.feature_name.clone();
        self.add_crate_feature_dependency(crate_name, feature.as_str(), optional)
    }
}


/// How many `/` characters the dependency string holds.
pub open spec fn slash_count(s: Seq<char>) -> nat
    decreases s.len(),
{
    if s.len() == 0 {
        0
    } else {
        (if s[0] == '/' {
            1nat
        } else {
            0nat
        }) + slash_count(s.skip(1))
    }
}

/// The position of the first `/`, or the length if there is none.
pub open spec fn first_slash(s: Seq<char>) -> int
    decreases s.len(),
{
    if s.len() == 0 {
        0
    } else if s[0] == '/' {
        0
    } else {
        1 + first_slash(s.skip(1))
    }
}

/// Whether a one-slash dependency string requests the optional form: its
/// package segment ends in `?`.
pub open spec fn parsed_optional(s: Seq<char>) -> bool {
    first_slash(s) > 0 && s[first_slash(s) - 1] == '?'
}

/// The package segment of a one-slash dependency string, with a trailing `?`
/// stripped.
pub open spec fn parsed_krate(s: Seq<char>) -> Seq<char> {
    if parsed_optional(s) {
        s.take(first_slash(s) - 1)
    } else {
        s.take(first_slash(s))
    }
}

/// The sub-feature segment of a one-slash dependency string.
pub open spec fn parsed_feature(s: Seq<char>) -> Seq<char> {
    s.skip(first_slash(s) + 1)
}

proof fn lemma_no_slash_count(s: Seq<char>)
    requires
        forall|j: int| 0 <= j < s.len() ==> s[j] != '/',
    ensures
        slash_count(s) == 0,
    decreases s.len(),
{
    if s.len() > 0 {
        assert forall|j: int| 0 <= j < s.skip(1).len() implies s.skip(1)[j] != '/' by {
            assert(s.skip(1)[j] == s[j + 1]);
        }
        lemma_no_slash_count(s.skip(1));
    }
}

proof fn lemma_first_slash_at(s: Seq<char>, ix: int)
    requires
        0 <= ix < s.len(),
        s[ix] == '/',
        forall|j: int| 0 <= j < ix ==> s[j] != '/',
    ensures
        first_slash(s) == ix,
    decreases s.len(),
{
    if ix > 0 {
        assert(s.skip(1)[ix - 1] == s[ix]);
        assert forall|j: int| 0 <= j < ix - 1 implies s.skip(1)[j] != '/' by {
            assert(s.skip(1)[j] == s[j + 1]);
        }
        lemma_first_slash_at(s.skip(1), ix - 1);
    }
}

proof fn lemma_one_slash_count(s: Seq<char>, ix: int)
    requires
        0 <= ix < s.len(),
        s[ix] == '/',
        forall|j: int| 0 <= j < s.len() && j != ix ==> s[j] != '/',
    ensures
        slash_count(s) == 1,
    decreases s.len(),
{
    if ix == 0 {
        assert forall|j: int| 0 <= j < s.skip(1).len() implies s.skip(1)[j] != '/' by {
            assert(s.skip(1)[j] == s[j + 1]);
        }
        lemma_no_slash_count(s.skip(1));
    } else {
        assert(s.skip(1)[ix - 1] == s[ix]);
        assert forall|j: int| 0 <= j < s.skip(1).len() && j != ix - 1 implies s.skip(1)[j]
            != '/' by {
            assert(s.skip(1)[j] == s[j + 1]);
        }
        lemma_one_slash_count(s.skip(1), ix - 1);
    }
}

proof fn lemma_slash_count_pos(s: Seq<char>, i: int)
    requires
        0 <= i < s.len(),
        s[i] == '/',
    ensures
        slash_count(s) >= 1,
    decreases s.len(),
{
    if i > 0 {
        assert(s.skip(1)[i - 1] == s[i]);
        lemma_slash_count_pos(s.skip(1), i - 1);
    }
}

proof fn lemma_two_slash_count(s: Seq<char>, i1: int, i2: int)
    requires
        0 <= i1 < i2 < s.len(),
        s[i1] == '/',
        s[i2] == '/',
    ensures
        slash_count(s) >= 2,
    decreases s.len(),
{
    if i1 == 0 {
        assert(s.skip(1)[i2 - 1] == s[i2]);
        lemma_slash_count_pos(s.skip(1), i2 - 1);
    } else {
        assert(s.skip(1)[i1 - 1] == s[i1]);
        assert(s.skip(1)[i2 - 1] == s[i2]);
        lemma_two_slash_count(s.skip(1), i1 - 1, i2 - 1);
    }
}

/// The position of the first occurrence of the character at or after `from`,
/// or the length if there is none.
fn find_char(s: &str, from: usize, n: usize, c: char) -> (r: usize)
    requires
        n == s@.len(),
        from <= n,
    ensures
        from <= r <= n,
        forall|j: int| from <= j < r ==> s@[j] != c,
        r < n ==> s@[r as int] == c,
{
    let mut i: usize = from;
    while i < n
        invariant
            from <= i <= n,
            n == s@.len(),
            forall|j: int| from <= j < i ==> s@[j] != c,
        decreases n - i,
    {
        if s.get_char(i) == c {
            return i;
        }
        i += 1;
    }
    i
}

impl DependencyHelper {
    /// Adds one dependency given as a string: a plain feature name, or
    /// `pkg/feature`, or `pkg?/feature`; more than one `/` is rejected, and a
    /// crate-feature edge is conflict-checked against its opposite form.
    pub fn add_dependency(&mut self, dependency_name: &str) -> (r: Result<(), DependencyError>)
        requires
            old(self).wf(),
        ensures
            final(self).wf(),
            final(self).feature() == old(self).feature(),
            slash_count(dependency_name@) == 0 ==> (r matches Ok(())) && final(self).edges()
                == old(self).edges().insert(DepModel::Simple { name: dependency_name@ }),
            slash_count(dependency_name@) >= 2 ==> (r matches Err(
                DependencyError::InvalidDependencyFormat,
            )) && final(self).edges() == old(self).edges(),
            slash_count(dependency_name@) == 1 && old(self).edges().contains(
                opposite_edge(
                    parsed_krate(dependency_name@),
                    parsed_feature(dependency_name@),
                    parsed_optional(dependency_name@),
                ),
            ) ==> (r matches Err(DependencyError::Conflict)) && final(self).edges() == old(
                self,
            ).edges(),
            slash_count(dependency_name@) == 1 && !old(self).edges().contains(
                opposite_edge(
                    parsed_krate(dependency_name@),
                    parsed_feature(dependency_name@),
                    parsed_optional(dependency_name@),
                ),
            ) ==> (r matches Ok(())) && final(self).edges() == old(self).edges().insert(
                requested_edge(
                    parsed_krate(dependency_name@),
                    parsed_feature(dependency_name@),
                    parsed_optional(dependency_name@),
                ),
            ),
    {
        let n = dependency_name.unicode_len();
        let i = find_char(dependency_name, 0, n, '/');
        if i == n {
            proof {
                lemma_no_slash_count(dependency_name@);
            }
            self.insert_edge(Dependency::Simple(dependency_name.to_owned()));
            return Ok(());
        }
        let ix = i;
        proof {
            lemma_first_slash_at(dependency_name@, ix as int);
        }
        let j = find_char(dependency_name, ix + 1, n, '/');
        if j < n {
            proof {
                lemma_two_slash_count(dependency_name@, ix as int, j as int);
            }
            return Err(DependencyError::InvalidDependencyFormat);
        }
        proof {
            lemma_one_slash_count(dependency_name@, ix as int);
        }
        let optional = ix > 0 && dependency_name.get_char(ix - 1) == '?';
        let krate_end = if optional {
            ix - 1
        } else {
            ix
        };
        let krate = dependency_name.substring_char(0, krate_end);
        let feature = dependency_name.substring_char(ix + 1, n);
        proof {
            assert(krate@ == parsed_krate(dependency_name@));
            assert(feature@ == parsed_feature(dependency_name@));
            assert(optional == parsed_optional(dependency_name@));
        }
        self.add_crate_feature_dependency(krate, feature, optional)
    }

    /// The edges rendered as strings, in storage order.
    pub closed spec fn rendered(self) -> Seq<Seq<char>> {
        self.deps@.map_values(|d: Dependency| dep_str(d@))
    }

    /// Renders the collected edge set as the sorted array written into the
    /// manifest.
    pub fn into_sorted_strings(self) -> (r: Vec<String>)
        ensures
            lex_sorted(views_of(r@)),
            views_of(r@).to_multiset() == self.rendered().to_multiset(),
            forall|x: Seq<char>|
                views_of(r@).contains(x) <==> exists|e: DepModel|
                    self.edges().contains(e) && dep_str(e) == x,
            self.wf() ==> views_of(r@).len() == self.edges().len(),
    {
        let ghost whole = self;
        let DependencyHelper { feature_name: _, deps } = self;
        let mut ds = deps;
        let mut strs: Vec<String> = Vec::new();
        proof {
            vstd::seq_lib::lemma_multiset_commutative(
                views_of(strs@),
                ds@.map_values(|d: Dependency| dep_str(d@)),
            );
            assert(views_of(strs@) =~= Seq::<Seq<char>>::empty());
            assert(views_of(strs@).add(
                ds@.map_values(|d: Dependency| dep_str(d@)),
            ) =~= whole.rendered());
        }
        while ds.len() > 0
            invariant
                views_of(strs@).to_multiset().add(
                    ds@.map_values(|d: Dependency| dep_str(d@)).to_multiset(),
                ) == whole.rendered().to_multiset(),
            decreases ds@.len(),
        {
            let ghost old_ds = ds@;
            let ghost old_strs = strs@;
            let d = ds.pop().unwrap();
            let rendered_str = d.into_string();
            strs.push(rendered_str);
            proof {
                let f = |d2: Dependency| dep_str(d2@);
                assert(old_ds =~= ds@.push(d));
                assert(old_ds.map_values(f) =~= ds@.map_values(f).push(dep_str(d@)));
                ds@.map_values(f).to_multiset_ensures();
                assert(views_of(strs@) =~= views_of(
                    old_strs,
                ).push(rendered_str@));
                views_of(old_strs).to_multiset_ensures();
                broadcast use vstd::multiset::group_multiset_axioms;

                assert(views_of(strs@).to_multiset().add(
                    ds@.map_values(f).to_multiset(),
                ) =~= whole.rendered().to_multiset());
            }
        }
        proof {
            assert(ds@.map_values(|d: Dependency| dep_str(d@)) =~= Seq::<Seq<char>>::empty());
            assert(views_of(strs@).to_multiset().add(
                Seq::<Seq<char>>::empty().to_multiset(),
            ) =~= views_of(strs@).to_multiset());
        }
        let r = sort_strings(strs);
        proof {
            let rv = views_of(r@);
            let rend = whole.rendered();
            rv.to_multiset_ensures();
            rend.to_multiset_ensures();
            assert forall|x: Seq<char>| rv.contains(x) implies exists|e: DepModel|
                whole.edges().contains(e) && dep_str(e) == x by {
                assert(rv.to_multiset().count(x) > 0);
                assert(rend.contains(x));
                let i = choose|i: int| 0 <= i < rend.len() && rend[i] == x;
                let e = whole.deps@[i]@;
                assert(whole.deps@.map_values(|d2: Dependency| d2@)[i] == e);
                assert(whole.deps@.map_values(|d2: Dependency| d2@).contains(e));
                assert(whole.edges().contains(e) && dep_str(e) == x);
            }
            if whole.wf() {
                let mapped = whole.deps@.map_values(|d2: Dependency| d2@);
                assert(mapped.no_duplicates()) by {
                    assert forall|i: int, j: int|
                        0 <= i < mapped.len() && 0 <= j < mapped.len() && i != j
                        implies mapped[i] != mapped[j] by {
                        assert(mapped[i] == whole.deps@[i]@);
                        assert(mapped[j] == whole.deps@[j]@);
                    }
                }
                mapped.unique_seq_to_set();
                assert(whole.edges().len() == whole.deps@.len());
                assert(rv.len() == rv.to_multiset().len());
                assert(rend.len() == rend.to_multiset().len());
                assert(rv.len() == whole.deps@.len());
            }
            assert forall|x: Seq<char>|
                (exists|e: DepModel| whole.edges().contains(e) && dep_str(e) == x) implies rv.contains(
                x,
            ) by {
                let e = choose|e: DepModel| whole.edges().contains(e) && dep_str(e) == x;
                let vs = whole.deps@.map_values(|d2: Dependency| d2@);
                assert(vs.contains(e));
                let i = choose|i: int| 0 <= i < vs.len() && vs[i] == e;
                assert(rend[i] == dep_str(whole.deps@[i]@));
                assert(rend.contains(x));
                assert(rend.to_multiset().count(x) > 0);
                assert(rv.to_multiset().count(x) > 0);
            }
        }
        r
    }
}


proof fn lemma_map_multiset<A, B>(s1: Seq<A>, s2: Seq<A>, f: spec_fn(A) -> B)
    requires
        s1.to_multiset() == s2.to_multiset(),
    ensures
        s1.map_values(f).to_multiset() == s2.map_values(f).to_multiset(),
    decreases s1.len(),
{
    broadcast use vstd::seq_lib::group_to_multiset_ensures;
    broadcast use vstd::multiset::group_multiset_axioms;

    if s1.len() == 0 {
        assert(s1.len() == s1.to_multiset().len());
        assert(s2.len() == s2.to_multiset().len());
        assert(s2.len() == 0);
        assert(s1.map_values(f) =~= Seq::<B>::empty());
        assert(s2.map_values(f) =~= Seq::<B>::empty());
    } else {
        let x = s1.last();
        assert(s1.contains(x));
        assert(s2.to_multiset().count(x) > 0);
        assert(s2.contains(x));
        let i = choose|i: int| 0 <= i < s2.len() && s2[i] == x;
        assert(s1.remove(s1.len() - 1) =~= s1.drop_last());
        assert(s1.drop_last().to_multiset() =~= s1.to_multiset().remove(x));
        assert(s2.remove(i).to_multiset() =~= s2.to_multiset().remove(x));
        lemma_map_multiset(s1.drop_last(), s2.remove(i), f);
        assert(s1.map_values(f) =~= s1.drop_last().map_values(f).push(f(x)));
        assert(s1.drop_last().map_values(f).push(f(x)).to_multiset() =~= s1.drop_last().map_values(
            f,
        ).to_multiset().insert(f(x)));
        assert(s2.remove(i).map_values(f) =~= s2.map_values(f).remove(i));
        assert(s2.map_values(f)[i] == f(x));
        assert(s2.map_values(f).remove(i).to_multiset() =~= s2.map_values(f).to_multiset().remove(
            f(x),
        ));
        assert(s2.map_values(f).contains(f(x)));
        assert(s2.map_values(f).to_multiset().count(f(x)) > 0);
        assert(s2.map_values(f).to_multiset().remove(f(x)).insert(f(x)) =~= s2.map_values(
            f,
        ).to_multiset());
        assert(s1.map_values(f).to_multiset() =~= s2.map_values(f).to_multiset());
    }
}

proof fn lemma_distinct_same_set_multiset<A>(s1: Seq<A>, s2: Seq<A>)
    requires
        s1.no_duplicates(),
        s2.no_duplicates(),
        s1.to_set() == s2.to_set(),
    ensures
        s1.to_multiset() == s2.to_multiset(),
{
    broadcast use vstd::seq_lib::group_to_multiset_ensures;

    s1.lemma_multiset_has_no_duplicates();
    s2.lemma_multiset_has_no_duplicates();
    assert(s1.to_multiset() =~= s2.to_multiset()) by {
        assert forall|x: A| #[trigger] s1.to_multiset().count(x) == s2.to_multiset().count(x) by {
            assert(s1.contains(x) == s1.to_set().contains(x));
            assert(s2.contains(x) == s2.to_set().contains(x));
            if s1.to_set().contains(x) {
                assert(s1.to_multiset().contains(x));
                assert(s2.to_multiset().contains(x));
            } else {
                assert(!(s1.to_multiset().count(x) > 0));
                assert(!(s2.to_multiset().count(x) > 0));
            }
        }
    }
}

/// Two helpers with the same edge set render the same multiset of strings:
/// with the sortedness of `into_sorted_strings` and
/// `lemma_sorted_render_unique`, the rendered array is a function of the
/// edge set alone, whatever the order of declaration.
pub proof fn lemma_rendered_of_edges(a: DependencyHelper, b: DependencyHelper)
    requires
        a.wf(),
        b.wf(),
        a.edges() == b.edges(),
    ensures
        a.rendered().to_multiset() == b.rendered().to_multiset(),
{
    let f = |e: DepModel| dep_str(e);
    let ma = a.deps@.map_values(|d: Dependency| d@);
    let mb = b.deps@.map_values(|d: Dependency| d@);
    assert(ma.no_duplicates()) by {
        assert forall|i: int, j: int| 0 <= i < ma.len() && 0 <= j < ma.len() && i != j
            implies ma[i] != ma[j] by {
            assert(ma[i] == a.deps@[i]@ && ma[j] == a.deps@[j]@);
        }
    }
    assert(mb.no_duplicates()) by {
        assert forall|i: int, j: int| 0 <= i < mb.len() && 0 <= j < mb.len() && i != j
            implies mb[i] != mb[j] by {
            assert(mb[i] == b.deps@[i]@ && mb[j] == b.deps@[j]@);
        }
    }
    lemma_distinct_same_set_multiset(ma, mb);
    lemma_map_multiset(ma, mb, f);
    assert(a.rendered() =~= ma.map_values(f)) by {
        assert(forall|i: int|
            0 <= i < a.deps@.len() ==> a.rendered()[i] == dep_str(a.deps@[i]@) && #[trigger] ma.map_values(
                f,
            )[i] == f(ma[i]));
    }
    assert(b.rendered() =~= mb.map_values(f)) by {
        assert(forall|i: int|
            0 <= i < b.deps@.len() ==> b.rendered()[i] == dep_str(b.deps@[i]@) && #[trigger] mb.map_values(
                f,
            )[i] == f(mb[i]));
    }
}

} // verus!
