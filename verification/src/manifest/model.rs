//! The mathematical model of a feature table: a map from feature name to the
//! entry's dependency strings and trailing decoration, together with the
//! stale-removal and regeneration transforms and their laws.

use vstd::prelude::*;
use crate::manifest::DepModel;
use crate::manifest::text::is_ws;
use crate::manifest::text::lex_leq_fn;
use crate::manifest::text::lex_sorted;
use crate::manifest::text::lemma_lex_total_ordering;
use crate::manifest::text::trim_spec;
use vstd::seq_lib::lemma_sorted_unique;

verus! {

/// One entry of the feature table: its dependency strings in document order
/// and the trailing decoration of its array value.
pub struct FeatureModel {
    pub deps: Seq<Seq<char>>,
    pub decor: Seq<char>,
}

/// The trailing comment that tags an entry as generator-owned.
pub open spec fn marker_view() -> Seq<char> {
    " # auto-generated by manifest-feature-gen"@
}

/// The exact trailing comment written behind every generated entry.
pub fn generated_marker() -> (r: &'static str)
    ensures
        r@ == marker_view(),
{
    " # auto-generated by manifest-feature-gen"
}

/// An entry whose trailing decoration trims to the marker text is
/// generator-owned.
pub open spec fn is_marked(decor: Seq<char>) -> bool {
    trim_spec(decor) == trim_spec(marker_view())
}

/// The generator-owned entries of a table.
pub open spec fn marked_keys(t: Map<Seq<char>, FeatureModel>) -> Set<Seq<char>> {
    t.dom().filter(|k: Seq<char>| is_marked(t[k].decor))
}

/// The table without its generator-owned entries: the hand-written baseline
/// every run starts from.
pub open spec fn strip_stale(t: Map<Seq<char>, FeatureModel>) -> Map<Seq<char>, FeatureModel> {
    t.remove_keys(marked_keys(t))
}

/// Stale removal deletes exactly the marker-tagged entries: a name survives
/// it if and only if it stood in the table without the marker, and every
/// surviving entry is kept unchanged.
pub proof fn lemma_strip_stale_props(t: Map<Seq<char>, FeatureModel>)
    ensures
        forall|k: Seq<char>|
            #[trigger] strip_stale(t).dom().contains(k) <==> (t.dom().contains(k) && !is_marked(
                t[k].decor,
            )),
        forall|k: Seq<char>|
            #[trigger] strip_stale(t).dom().contains(k) ==> strip_stale(t)[k] == t[k],
{
}

/// One regenerated entry: a feature name, its sorted dependency strings,
/// and the edge set they render.
pub struct Gen {
    pub name: Seq<char>,
    pub deps: Seq<Seq<char>>,
    pub edges: Set<DepModel>,
}

/// How a regenerated entry stands in the table: tagged with the marker.
pub open spec fn gen_model(g: Gen) -> FeatureModel {
    FeatureModel { deps: g.deps, decor: marker_view() }
}

/// The names of a run's regenerated entries.
pub open spec fn gen_names(gens: Seq<Gen>) -> Set<Seq<char>> {
    gens.map_values(|g: Gen| g.name).to_set()
}

/// Writes every regenerated entry into the table, in order; a later entry
/// with the same name wins.
pub open spec fn apply_gens(
    t: Map<Seq<char>, FeatureModel>,
    gens: Seq<Gen>,
) -> Map<Seq<char>, FeatureModel>
    decreases gens.len(),
{
    if gens.len() == 0 {
        t
    } else {
        apply_gens(t, gens.drop_last()).insert(gens.last().name, gen_model(gens.last()))
    }
}

/// One full synchronization run over a loaded table: stale removal, then
/// regeneration.
pub open spec fn sync_table(
    t: Map<Seq<char>, FeatureModel>,
    gens: Seq<Gen>,
) -> Map<Seq<char>, FeatureModel> {
    apply_gens(strip_stale(t), gens)
}

/// The order-independent shape of a table used for change detection: each
/// feature's dependency strings as a set.
pub open spec fn snap_of(t: Map<Seq<char>, FeatureModel>) -> Map<Seq<char>, Set<Seq<char>>> {
    t.map_values(|f: FeatureModel| f.deps.to_set())
}

/// The regenerated entry that decides a name's final value: the last one
/// bearing that name, if any.
pub open spec fn last_gen_model(gens: Seq<Gen>, k: Seq<char>) -> Option<FeatureModel>
    decreases gens.len(),
{
    if gens.len() == 0 {
        None
    } else if gens.last().name == k {
        Some(gen_model(gens.last()))
    } else {
        last_gen_model(gens.drop_last(), k)
    }
}

/// What regeneration does to the table, pointwise: a regenerated name holds
/// its last regenerated value; every other name keeps its old entry.
pub proof fn lemma_apply_gens_lookup(t: Map<Seq<char>, FeatureModel>, gens: Seq<Gen>)
    ensures
        apply_gens(t, gens).dom() == t.dom() + gen_names(gens),
        forall|k: Seq<char>|
            last_gen_model(gens, k) matches Some(m) ==> apply_gens(t, gens).dom().contains(k)
                && #[trigger] apply_gens(t, gens)[k] == m,
        forall|k: Seq<char>|
            last_gen_model(gens, k) is None ==> (apply_gens(t, gens).dom().contains(k) == t.dom().contains(
                k,
            ) && (t.dom().contains(k) ==> #[trigger] apply_gens(t, gens)[k] == t[k])),
        forall|k: Seq<char>| last_gen_model(gens, k) is Some <==> gen_names(gens).contains(k),
    decreases gens.len(),
{
    if gens.len() == 0 {
        assert(apply_gens(t, gens).dom() =~= t.dom() + gen_names(gens)) by {
            assert(gens.map_values(|g: Gen| g.name) =~= Seq::<Seq<char>>::empty());
        }
        assert forall|k: Seq<char>| last_gen_model(gens, k) is Some implies gen_names(
            gens,
        ).contains(k) by {}
        assert forall|k: Seq<char>| gen_names(gens).contains(k) implies last_gen_model(gens, k) is Some by {
            assert(gens.map_values(|g: Gen| g.name) =~= Seq::<Seq<char>>::empty());
        }
    } else {
        let rest = gens.drop_last();
        let g = gens.last();
        lemma_apply_gens_lookup(t, rest);
        assert(gens.map_values(|g2: Gen| g2.name) =~= rest.map_values(|g2: Gen| g2.name).push(
            g.name,
        ));
        assert(gen_names(gens) =~= gen_names(rest).insert(g.name)) by {
            crate::manifest::text::lemma_to_set_push(rest.map_values(|g2: Gen| g2.name), g.name);
        }
        assert(apply_gens(t, gens).dom() =~= t.dom() + gen_names(gens));
    }
}

/// Every entry a regeneration decides carries the marker decoration.
pub proof fn lemma_last_gen_marked(gens: Seq<Gen>, k: Seq<char>)
    ensures
        last_gen_model(gens, k) matches Some(m) ==> m.decor == marker_view(),
    decreases gens.len(),
{
    if gens.len() > 0 && gens.last().name != k {
        lemma_last_gen_marked(gens.drop_last(), k);
    }
}

/// Regenerating a second time with the same entries changes nothing: the
/// second stale removal deletes exactly the first run's entries, and they are
/// then written back identically.
pub proof fn lemma_sync_idempotent(t: Map<Seq<char>, FeatureModel>, gens: Seq<Gen>)
    ensures
        sync_table(sync_table(t, gens), gens) == sync_table(t, gens),
{
    let s = strip_stale(t);
    let once = apply_gens(s, gens);
    lemma_apply_gens_lookup(s, gens);
    assert(trim_spec(marker_view()) == trim_spec(marker_view()));
    assert forall|k: Seq<char>| once.dom().contains(k) implies (marked_keys(once).contains(k)
        == gen_names(gens).contains(k)) by {
        if gen_names(gens).contains(k) {
            assert(last_gen_model(gens, k) is Some);
            lemma_last_gen_marked(gens, k);
            assert(is_marked(once[k].decor));
        } else {
            assert(last_gen_model(gens, k) is None);
            assert(s.dom().contains(k) && once[k] == s[k]);
            assert(!marked_keys(t).contains(k));
            assert(!is_marked(t[k].decor));
        }
    }
    assert(strip_stale(once) =~= s.remove_keys(gen_names(gens))) by {
        assert forall|k: Seq<char>| strip_stale(once).dom().contains(k) implies s.remove_keys(
            gen_names(gens),
        ).dom().contains(k) && strip_stale(once)[k] == s.remove_keys(gen_names(gens))[k] by {
            assert(once.dom().contains(k) && !marked_keys(once).contains(k));
            assert(!gen_names(gens).contains(k));
            assert(last_gen_model(gens, k) is None);
        }
        assert forall|k: Seq<char>| s.remove_keys(gen_names(gens)).dom().contains(k)
            implies strip_stale(once).dom().contains(k) by {
            assert(s.dom().contains(k) && !gen_names(gens).contains(k));
            assert(last_gen_model(gens, k) is None);
            assert(once.dom().contains(k));
        }
    }
    let s2 = s.remove_keys(gen_names(gens));
    lemma_apply_gens_lookup(s2, gens);
    assert(apply_gens(s2, gens) =~= once) by {
        assert forall|k: Seq<char>| apply_gens(s2, gens).dom().contains(k) implies once.dom().contains(
            k,
        ) && apply_gens(s2, gens)[k] == once[k] by {
            if gen_names(gens).contains(k) {
                assert(last_gen_model(gens, k) is Some);
            } else {
                assert(last_gen_model(gens, k) is None);
                assert(s2.dom().contains(k) && s2[k] == s[k]);
            }
        }
        assert forall|k: Seq<char>| once.dom().contains(k) implies apply_gens(
            s2,
            gens,
        ).dom().contains(k) by {
            if !gen_names(gens).contains(k) {
                assert(last_gen_model(gens, k) is None);
                assert(s.dom().contains(k));
                assert(s2.dom().contains(k));
            }
        }
    }
}

/// A manifest that was just synchronized and is synchronized again with the
/// same entries compares as unchanged: the second run never writes.
pub proof fn lemma_second_run_unchanged(t: Map<Seq<char>, FeatureModel>, gens: Seq<Gen>)
    ensures
        snap_of(sync_table(sync_table(t, gens), gens)) == snap_of(sync_table(t, gens)),
{
    lemma_sync_idempotent(t, gens);
}

/// Two sorted renderings of the same strings are the same sequence: the
/// declaration order of dependencies cannot show in the output.
pub proof fn lemma_sorted_render_unique(a: Seq<Seq<char>>, b: Seq<Seq<char>>)
    requires
        lex_sorted(a),
        lex_sorted(b),
        a.to_multiset() == b.to_multiset(),
    ensures
        a == b,
{
    lemma_lex_total_ordering();
    lemma_sorted_unique(a, b, lex_leq_fn());
}

} // verus!
