// Properties of merging and rendering, proved over the model.
use vstd::prelude::*;
use crate::assoc::{key_pos, lookup, lemma_key_pos, lemma_key_pos_same_keys};
use crate::merge::{
    extend_templates, fix_statics_m, merge_children, merge_component, merge_fragment,
    merge_templates, fragment_from_diff, merge_pool, merge_opt_pool, merge_root, new_pool,
    root_from_diff, new_component,
};
use crate::render::{
    pool_fuel, render_child, render_component, render_fragment, rows, scope_templates, slots,
    resolve_chain,
};
use crate::tree::{
    ChildDiffM, ChildM, ComponentDiffM, ComponentM, ComponentStaticsM, FragmentDiffM, FragmentM,
    PoolM, RenderError, RootDiffM, RootM, StaticsM, Strs, TemplatesM,
};

verus! {

// ---------------------------------------------------------------------------
// Shape of regular fragments and components

proof fn lemma_merge_children_keys(
    cur: Seq<(usize, ChildM)>,
    diff: Seq<(usize, ChildDiffM)>,
    n: nat,
)
    requires
        merge_children(cur, diff, n) is Ok,
    ensures
        merge_children(cur, diff, n)->Ok_0.len() == cur.len(),
        forall|i: int|
            0 <= i < cur.len() ==> (#[trigger] merge_children(cur, diff, n)->Ok_0[i]).0
                == cur[i].0,
    decreases n,
{
    if n > 0 && n <= diff.len() {
        lemma_merge_children_keys(cur, diff, (n - 1) as nat);
        let acc = merge_children(cur, diff, (n - 1) as nat)->Ok_0;
        lemma_key_pos(acc, diff[n - 1].0);
    }
}

/// No update among the first `n` names the key `k`.
pub open spec fn unnamed(diff: Seq<(usize, ChildDiffM)>, n: nat, k: usize) -> bool {
    forall|j: int| 0 <= j < n ==> #[trigger] diff[j].0 != k
}

proof fn lemma_merge_children_untouched(
    cur: Seq<(usize, ChildM)>,
    diff: Seq<(usize, ChildDiffM)>,
    n: nat,
)
    requires
        n <= diff.len(),
        merge_children(cur, diff, n) is Ok,
    ensures
        forall|i: int|
            0 <= i < cur.len() && unnamed(diff, n, cur[i].0) ==> #[trigger] merge_children(
                cur,
                diff,
                n,
            )->Ok_0[i] == cur[i],
    decreases n,
{
    if n > 0 {
        lemma_merge_children_untouched(cur, diff, (n - 1) as nat);
        lemma_merge_children_keys(cur, diff, (n - 1) as nat);
        let acc = merge_children(cur, diff, (n - 1) as nat)->Ok_0;
        let k = diff[n - 1].0;
        lemma_key_pos(acc, k);
        assert forall|i: int|
            0 <= i < cur.len() && unnamed(diff, n, cur[i].0) implies #[trigger] merge_children(
                cur,
                diff,
                n,
            )->Ok_0[i] == cur[i] by {
            assert(diff[n - 1].0 != cur[i].0);
            assert(unnamed(diff, (n - 1) as nat, cur[i].0));
            assert(acc[i].0 == cur[i].0);
        }
    }
}

proof fn lemma_merge_children_missing(
    cur: Seq<(usize, ChildM)>,
    diff: Seq<(usize, ChildDiffM)>,
    n: nat,
    j: int,
)
    requires
        0 <= j < n <= diff.len(),
        key_pos(cur, diff[j].0) < 0,
    ensures
        merge_children(cur, diff, n) is Err,
    decreases n,
{
    if merge_children(cur, diff, (n - 1) as nat) is Ok {
        if j < n - 1 {
            lemma_merge_children_missing(cur, diff, (n - 1) as nat, j);
        } else {
            lemma_merge_children_keys(cur, diff, (n - 1) as nat);
            let acc = merge_children(cur, diff, (n - 1) as nat)->Ok_0;
            lemma_key_pos_same_keys(acc, cur, diff[j].0);
        }
    }
}

/// Merging child updates leaves every child the update does not name as it
/// was, and fails when the update names a key that is not there.
pub proof fn law_children_merge_entries(cur: Seq<(usize, ChildM)>, diff: Seq<(usize, ChildDiffM)>)
    ensures
        merge_children(cur, diff, diff.len()) matches Ok(r) ==> forall|i: int|
            0 <= i < cur.len() && unnamed(diff, diff.len(), cur[i].0) ==> #[trigger] r[i] == cur[i],
        forall|j: int|
            0 <= j < diff.len() && key_pos(cur, #[trigger] diff[j].0) < 0 ==> merge_children(
                cur,
                diff,
                diff.len(),
            ) is Err,
{
    if merge_children(cur, diff, diff.len()) is Ok {
        lemma_merge_children_untouched(cur, diff, diff.len());
    }
    assert forall|j: int|
        0 <= j < diff.len() && key_pos(cur, #[trigger] diff[j].0) < 0 implies merge_children(
            cur,
            diff,
            diff.len(),
        ) is Err by {
        lemma_merge_children_missing(cur, diff, diff.len(), j);
    }
}

/// Merging an update into a regular fragment keeps its statics, its number
/// of children and their keys; so statics one longer than the children stay so.
pub proof fn law_update_keeps_shape(
    children: Seq<(usize, ChildM)>,
    statics: StaticsM,
    diff: Seq<(usize, ChildDiffM)>,
)
    requires
        merge_fragment(
            FragmentM::Regular { children, statics },
            FragmentDiffM::UpdateRegular { children: diff },
        ) is Ok,
    ensures
        merge_fragment(
            FragmentM::Regular { children, statics },
            FragmentDiffM::UpdateRegular { children: diff },
        )->Ok_0 matches FragmentM::Regular { children: c, statics: s } && s == statics
            && c.len() == children.len() && forall|i: int|
            0 <= i < c.len() ==> #[trigger] c[i].0 == children[i].0,
{
    lemma_merge_children_keys(children, diff, diff.len());
}

/// The same for a component updated child by child.
pub proof fn law_component_update_keeps_shape(cur: ComponentM, diff: Seq<(usize, ChildDiffM)>)
    requires
        merge_component(cur, ComponentDiffM::UpdateRegular { children: diff }) is Ok,
    ensures
        ({
            let c = merge_component(cur, ComponentDiffM::UpdateRegular { children: diff })->Ok_0;
            c.statics == cur.statics && c.children.len() == cur.children.len() && forall|i: int|
                0 <= i < c.children.len() ==> #[trigger] c.children[i].0 == cur.children[i].0
        }),
{
    lemma_merge_children_keys(cur.children, diff, diff.len());
}

proof fn lemma_slots_keys(
    kids: Seq<(usize, ChildM)>,
    st: Strs,
    cousin: Option<Strs>,
    sibling: Option<Seq<(usize, ChildM)>>,
    pool: Option<PoolM>,
    tmpl: Option<TemplatesM>,
    fuel: nat,
    n: nat,
)
    requires
        slots(kids, st, cousin, sibling, pool, tmpl, fuel, n) is Ok,
    ensures
        forall|i: usize| (i as int) < n ==> #[trigger] key_pos(kids, i) >= 0,
    decreases n,
{
    if n > 0 {
        lemma_slots_keys(kids, st, cousin, sibling, pool, tmpl, fuel, (n - 1) as nat);
    }
}

/// A regular fragment with inline statics renders only when there is one
/// static more than there are children, and a child under every key
/// `0 .. children - 1`.
pub proof fn law_rendered_regular_is_well_formed(
    children: Seq<(usize, ChildM)>,
    st: Strs,
    pool: Option<PoolM>,
    cousin: Option<Strs>,
    tmpl: Option<TemplatesM>,
    fuel: nat,
)
    requires
        render_fragment(
            FragmentM::Regular { children, statics: StaticsM::Inline(st) },
            pool,
            cousin,
            tmpl,
            fuel,
        ) is Ok,
    ensures
        st.len() == children.len() + 1,
        forall|i: usize| (i as int) < children.len() ==> #[trigger] key_pos(children, i) >= 0,
{
    lemma_slots_keys(children, st, cousin, None, pool, tmpl, fuel, (st.len() - 1) as nat);
}

/// The same for a component with inline statics.
pub proof fn law_rendered_component_is_well_formed(
    children: Seq<(usize, ChildM)>,
    st: Strs,
    pool: Option<PoolM>,
    fuel: nat,
)
    requires
        render_component(
            ComponentM { children, statics: ComponentStaticsM::Inline(st) },
            pool,
            fuel,
        ) is Ok,
    ensures
        st.len() == children.len() + 1,
        forall|i: usize| (i as int) < children.len() ==> #[trigger] key_pos(children, i) >= 0,
{
    lemma_slots_keys(children, st, None, None, pool, None, fuel, (st.len() - 1) as nat);
}

// ---------------------------------------------------------------------------
// Replacement

/// Merging a replacing diff a second time changes nothing.
pub proof fn law_replace_is_idempotent(cur: FragmentM, f: FragmentM)
    ensures
        merge_fragment(cur, FragmentDiffM::ReplaceCurrent(f)) == Ok::<FragmentM, crate::tree::MergeError>(f),
        merge_fragment(f, FragmentDiffM::ReplaceCurrent(f)) == merge_fragment(
            cur,
            FragmentDiffM::ReplaceCurrent(f),
        ),
{
}

/// Replacing a component twice with the same description gives what the
/// first replacement gave.
pub proof fn law_component_replace_is_idempotent(
    cur: ComponentM,
    children: Seq<(usize, ChildM)>,
    statics: ComponentStaticsM,
)
    ensures
        ({
            let d = ComponentDiffM::ReplaceCurrent { children, statics };
            merge_component(merge_component(cur, d)->Ok_0, d) == merge_component(cur, d)
        }),
{
}

/// A full description merged into any fragment gives the fragment that the
/// description builds on its own.
pub proof fn law_replace_matches_fresh(cur: FragmentM, f: FragmentM)
    ensures
        merge_fragment(cur, FragmentDiffM::ReplaceCurrent(f)) == fragment_from_diff(
            FragmentDiffM::ReplaceCurrent(f),
        ),
{
}

// ---------------------------------------------------------------------------
// Templates

pub open spec fn keys_distinct(t: TemplatesM) -> bool {
    forall|i: int, j: int| 0 <= i < j < t.len() ==> t[i].0 != t[j].0
}

pub open spec fn keys_disjoint(a: TemplatesM, b: TemplatesM) -> bool {
    forall|i: int, j: int| 0 <= i < a.len() && 0 <= j < b.len() ==> a[i].0 != b[j].0
}

proof fn lemma_extend_disjoint(cur: TemplatesM, new: TemplatesM, n: nat)
    requires
        n <= new.len(),
        keys_distinct(new),
        keys_disjoint(cur, new),
    ensures
        extend_templates(cur, new, n) == cur + new.take(n as int),
    decreases n,
{
    if n == 0 {
        assert(cur + new.take(0) =~= cur);
    } else {
        lemma_extend_disjoint(cur, new, (n - 1) as nat);
        let acc = cur + new.take(n - 1);
        let k = new[n - 1].0;
        lemma_key_pos(acc, k);
        if key_pos(acc, k) >= 0 {
            let p = key_pos(acc, k);
            if p < cur.len() {
                assert(cur[p].0 == k);
            } else {
                assert(new[p - cur.len()].0 == k);
            }
        }
        assert(acc.push(new[n - 1]) =~= cur + new.take(n as int));
    }
}

/// Merging template dictionaries with distinct ids is associative, and
/// gives their union with every entry unchanged.
pub proof fn law_templates_merge_associative(a: TemplatesM, b: TemplatesM, c: TemplatesM)
    requires
        keys_distinct(a),
        keys_distinct(b),
        keys_distinct(c),
        keys_disjoint(a, b),
        keys_disjoint(a, c),
        keys_disjoint(b, c),
    ensures
        merge_templates(merge_templates(Some(a), Some(b)), Some(c)) == merge_templates(
            Some(a),
            merge_templates(Some(b), Some(c)),
        ),
        merge_templates(merge_templates(Some(a), Some(b)), Some(c)) == Some(a + b + c),
{
    lemma_extend_disjoint(a, b, b.len());
    assert(b.take(b.len() as int) =~= b);
    lemma_extend_disjoint(b, c, c.len());
    assert(c.take(c.len() as int) =~= c);
    let ab = a + b;
    assert(keys_disjoint(ab, c)) by {
        assert forall|i: int, j: int| 0 <= i < ab.len() && 0 <= j < c.len() implies ab[i].0
            != c[j].0 by {
            if i >= a.len() {
                assert(ab[i] == b[i - a.len()]);
            }
        }
    }
    lemma_extend_disjoint(ab, c, c.len());
    let bc = b + c;
    assert(keys_distinct(bc)) by {
        assert forall|i: int, j: int| 0 <= i < j < bc.len() implies bc[i].0 != bc[j].0 by {
            if i >= b.len() {
                assert(bc[i] == c[i - b.len()]);
            }
            if j >= b.len() {
                assert(bc[j] == c[j - b.len()]);
            }
        }
    }
    assert(keys_disjoint(a, bc)) by {
        assert forall|i: int, j: int| 0 <= i < a.len() && 0 <= j < bc.len() implies a[i].0
            != bc[j].0 by {
            if j >= b.len() {
                assert(bc[j] == c[j - b.len()]);
            }
        }
    }
    lemma_extend_disjoint(a, bc, bc.len());
    assert(bc.take(bc.len() as int) =~= bc);
    assert((a + b) + c =~= a + (b + c));
}

// ---------------------------------------------------------------------------
// Component references

pub open spec fn ref_not_negative(s: ComponentStaticsM) -> bool {
    match s {
        ComponentStaticsM::ComponentRef(cid) => cid >= 0,
        _ => true,
    }
}

/// A component installed or replaced by a merge carries no negative
/// reference, unless it names `i32::MIN`, which has no positive counterpart.
pub proof fn law_merged_component_has_no_negative_ref(cur: ComponentM, d: ComponentDiffM)
    requires
        ref_not_negative(cur.statics),
        !(d matches ComponentDiffM::ReplaceCurrent {
            statics: ComponentStaticsM::ComponentRef(cid),
            ..
        } && cid == i32::MIN),
        merge_component(cur, d) is Ok,
    ensures
        ref_not_negative(merge_component(cur, d)->Ok_0.statics),
{
}

/// `fix_statics` leaves no negative reference but `i32::MIN`, and applying
/// it again changes nothing.
pub proof fn law_fix_statics_normalizes(c: ComponentM)
    ensures
        ref_not_negative(fix_statics_m(c).statics) || fix_statics_m(c).statics
            == ComponentStaticsM::ComponentRef(i32::MIN),
        fix_statics_m(fix_statics_m(c)) == fix_statics_m(c),
{
}

/// `ids` is a chain of references in `pool`: each component but the last
/// refers to the next one, and the last has inline statics.
pub open spec fn is_chain(pool: PoolM, ids: Seq<i32>) -> bool {
    &&& ids.len() >= 1
    &&& forall|i: int| 0 <= i < ids.len() - 1 ==> #[trigger] refers_to(pool, ids[i], ids[i + 1])
    &&& lookup(pool, ids.last()) matches Some(z) && z.statics is Inline
}

/// The component under `a` has its statics from the one under `b`.
pub open spec fn refers_to(pool: PoolM, a: i32, b: i32) -> bool {
    lookup(pool, a) matches Some(x) && x.statics == ComponentStaticsM::ComponentRef(b)
}

/// A chain of references of any length ends at the first component with
/// inline statics, given as many hops as the chain has.
pub proof fn law_chain_stops_at_first_inline(pool: PoolM, ids: Seq<i32>, steps: nat)
    requires
        is_chain(pool, ids),
        steps + 1 >= ids.len(),
    ensures
        resolve_chain(Some(pool), ids[0], steps) == Ok::<ComponentM, RenderError>(
            lookup(pool, ids.last())->0,
        ),
    decreases ids.len(),
{
    if ids.len() > 1 {
        let rest = ids.drop_first();
        assert forall|i: int| 0 <= i < rest.len() - 1 implies #[trigger] refers_to(
            pool,
            rest[i],
            rest[i + 1],
        ) by {
            let j = i + 1;
            assert(rest[i] == ids[j] && rest[i + 1] == ids[j + 1]);
            assert(refers_to(pool, ids[j], ids[j + 1]));
        }
        assert(rest.last() == ids.last());
        let z: int = 0;
        assert(refers_to(pool, ids[z], ids[z + 1]));
        law_chain_stops_at_first_inline(pool, rest, (steps - 1) as nat);
    }
}

/// A component id renders exactly as the component it names.
pub proof fn law_component_id_renders_as_component(
    pool: PoolM,
    cid: i32,
    cousin: Option<Strs>,
    tmpl: Option<TemplatesM>,
)
    requires
        lookup(pool, cid) is Some,
    ensures
        render_child(ChildM::ComponentID(cid), Some(pool), cousin, tmpl, pool_fuel(Some(pool)) + 1)
            == render_component(lookup(pool, cid)->0, Some(pool), pool_fuel(Some(pool))),
{
}

/// A first diff that ships only children gets statics one longer than them.
pub proof fn law_first_diff_statics_fit(children: Seq<(usize, ChildDiffM)>)
    ensures
        fragment_from_diff(FragmentDiffM::UpdateRegular { children }) matches Ok(
            FragmentM::Regular { children: c, statics: StaticsM::Inline(st) },
        ) ==> st.len() == c.len() + 1,
{
}

// ---------------------------------------------------------------------------
// Boundaries of rendering

/// A regular fragment without children and a single static renders as that static.
pub proof fn law_single_static(
    s: Seq<char>,
    pool: Option<PoolM>,
    cousin: Option<Strs>,
    tmpl: Option<TemplatesM>,
    fuel: nat,
)
    ensures
        render_fragment(
            FragmentM::Regular { children: Seq::empty(), statics: StaticsM::Inline(seq![s]) },
            pool,
            cousin,
            tmpl,
            fuel,
        ) == Ok::<Seq<char>, RenderError>(s),
{
}

/// A comprehension without rows renders as the empty string, whatever its
/// statics, as long as they are not given twice and a template they name is
/// in scope.
pub proof fn law_empty_comprehension(
    statics: Option<StaticsM>,
    templates: Option<TemplatesM>,
    pool: Option<PoolM>,
    cousin: Option<Strs>,
    tmpl: Option<TemplatesM>,
    fuel: nat,
)
    requires
        !(statics is Some && cousin is Some),
        statics matches Some(StaticsM::TemplateRef(id)) ==> scope_templates(tmpl, templates) matches Some(t)
            && lookup(t, id) is Some,
    ensures
        render_fragment(
            FragmentM::Comprehension { dynamics: Seq::empty(), statics, templates },
            pool,
            cousin,
            tmpl,
            fuel,
        ) == Ok::<Seq<char>, RenderError>(Seq::empty()),
{
}

proof fn lemma_lookup_prefix<V>(t: Seq<(i32, V)>, p: Seq<(i32, V)>, id: i32)
    requires
        lookup(t, id) is Some,
    ensures
        lookup(t + p, id) == lookup(t, id),
{
    lemma_key_pos(t, id);
    lemma_key_pos(t + p, id);
    let a = key_pos(t, id);
    let b = key_pos(t + p, id);
    assert((t + p)[a].0 == id);
    if b >= 0 && b < a {
        assert(t[b] == (t + p)[b]);
    }
}

/// A comprehension whose statics name a template of its own dictionary
/// interleaves its rows with that template, whatever the enclosing scope holds.
pub proof fn law_own_template_resolves_locally(
    dynamics: Seq<Seq<ChildM>>,
    id: i32,
    own: TemplatesM,
    pool: Option<PoolM>,
    tmpl: Option<TemplatesM>,
    fuel: nat,
)
    requires
        lookup(own, id) is Some,
    ensures
        render_fragment(
            FragmentM::Comprehension {
                dynamics,
                statics: Some(StaticsM::TemplateRef(id)),
                templates: Some(own),
            },
            pool,
            None,
            tmpl,
            fuel,
        ) == rows(
            dynamics,
            Some(lookup(own, id)->0),
            pool,
            scope_templates(tmpl, Some(own)),
            fuel,
            dynamics.len(),
        ),
{
    if let Some(p) = tmpl {
        lemma_lookup_prefix(own, p, id);
    }
}

// ---------------------------------------------------------------------------
// No negative reference in a merged pool

pub open spec fn pool_refs_not_negative(p: PoolM) -> bool {
    forall|i: int| 0 <= i < p.len() ==> ref_not_negative(#[trigger] p[i].1.statics)
}

/// No component in the update replaces its statics by a reference to `i32::MIN`.
pub open spec fn no_min_ref(d: Seq<(i32, ComponentDiffM)>) -> bool {
    forall|i: int|
        0 <= i < d.len() ==> !(#[trigger] d[i].1 matches ComponentDiffM::ReplaceCurrent {
            statics: ComponentStaticsM::ComponentRef(cid),
            ..
        } && cid == i32::MIN)
}

proof fn lemma_merge_pool_refs(cur: PoolM, d: Seq<(i32, ComponentDiffM)>, n: nat)
    requires
        pool_refs_not_negative(cur),
        no_min_ref(d),
        merge_pool(cur, d, n) is Ok,
    ensures
        pool_refs_not_negative(merge_pool(cur, d, n)->Ok_0),
    decreases n,
{
    if n > 0 && n <= d.len() {
        lemma_merge_pool_refs(cur, d, (n - 1) as nat);
        let acc = merge_pool(cur, d, (n - 1) as nat)->Ok_0;
        let k = d[n - 1].0;
        lemma_key_pos(acc, k);
        let p = key_pos(acc, k);
        assert(!(d[n - 1].1 matches ComponentDiffM::ReplaceCurrent {
            statics: ComponentStaticsM::ComponentRef(cid),
            ..
        } && cid == i32::MIN));
        if p >= 0 {
            assert(ref_not_negative(acc[p].1.statics));
            law_merged_component_has_no_negative_ref(acc[p].1, d[n - 1].1);
        }
    }
}

proof fn lemma_new_pool_refs(d: Seq<(i32, ComponentDiffM)>, n: nat)
    requires
        no_min_ref(d),
        new_pool(d, n) is Ok,
    ensures
        pool_refs_not_negative(new_pool(d, n)->Ok_0),
    decreases n,
{
    if n > 0 && n <= d.len() {
        lemma_new_pool_refs(d, (n - 1) as nat);
        assert(!(d[n - 1].1 matches ComponentDiffM::ReplaceCurrent {
            statics: ComponentStaticsM::ComponentRef(cid),
            ..
        } && cid == i32::MIN));
    }
}

/// A tree built from a first diff, or merged from a tree without negative
/// references, holds none, as long as no component of the update names
/// `i32::MIN`.
pub proof fn law_merged_tree_has_no_negative_refs(cur: RootM, d: RootDiffM)
    requires
        cur.components matches Some(p) ==> pool_refs_not_negative(p),
        d.components matches Some(cd) ==> no_min_ref(cd),
    ensures
        merge_root(cur, d) matches Ok(r) ==> (r.components matches Some(p) ==> pool_refs_not_negative(p)),
        root_from_diff(d) matches Ok(r) ==> (r.components matches Some(p) ==> pool_refs_not_negative(p)),
{
    if let Some(cd) = d.components {
        if merge_opt_pool(cur.components, d.components) is Ok {
            match cur.components {
                Some(c) => lemma_merge_pool_refs(c, cd, cd.len()),
                None => lemma_merge_pool_refs(Seq::empty(), cd, cd.len()),
            }
        }
        if new_pool(cd, cd.len()) is Ok {
            lemma_new_pool_refs(cd, cd.len());
        }
    }
}

// ---------------------------------------------------------------------------
// A snapshot folded into a bare tree

pub open spec fn ids_distinct(d: Seq<(i32, ComponentDiffM)>) -> bool {
    forall|i: int, j: int| 0 <= i < j < d.len() ==> d[i].0 != d[j].0
}

proof fn lemma_pool_from_empty(d: Seq<(i32, ComponentDiffM)>, n: nat)
    requires
        n <= d.len(),
        ids_distinct(d),
    ensures
        merge_pool(Seq::empty(), d, n) == new_pool(d, n),
        new_pool(d, n) matches Ok(p) ==> p.len() == n && forall|i: int|
            0 <= i < n ==> #[trigger] p[i].0 == d[i].0,
    decreases n,
{
    if n > 0 {
        lemma_pool_from_empty(d, (n - 1) as nat);
        if new_pool(d, (n - 1) as nat) is Ok {
            let acc = new_pool(d, (n - 1) as nat)->Ok_0;
            let k = d[n - 1].0;
            lemma_key_pos(acc, k);
            if key_pos(acc, k) >= 0 {
                let p = key_pos(acc, k);
                assert(d[p].0 == k);
            }
            if new_pool(d, n) is Ok {
                let r = new_pool(d, n)->Ok_0;
                assert forall|i: int| 0 <= i < n implies #[trigger] r[i].0 == d[i].0 by {
                    if i < n - 1 {
                        assert(r[i] == acc[i]);
                    }
                }
            }
        }
    }
}

/// Folding a full snapshot into a tree that holds no components yet gives
/// the tree that decoding the snapshot on its own gives.
pub proof fn law_snapshot_into_bare_tree_matches_fresh(cur: RootM, f: FragmentM, d: RootDiffM)
    requires
        cur.components is None,
        d.fragment == FragmentDiffM::ReplaceCurrent(f),
        d.components matches Some(cd) ==> ids_distinct(cd),
    ensures
        merge_root(cur, d) == root_from_diff(d),
{
    if let Some(cd) = d.components {
        lemma_pool_from_empty(cd, cd.len());
    }
}

// ---------------------------------------------------------------------------
// A replacing update merged twice

/// Every component in the update is a full description.
pub open spec fn all_replace(d: Seq<(i32, ComponentDiffM)>) -> bool {
    forall|i: int| 0 <= i < d.len() ==> #[trigger] d[i].1 is ReplaceCurrent
}

/// The first `m` components of the update stand in the pool as installed.
pub open spec fn installed(acc: PoolM, d: Seq<(i32, ComponentDiffM)>, m: nat) -> bool {
    forall|i: int|
        0 <= i < m ==> key_pos(acc, #[trigger] d[i].0) >= 0 && acc[key_pos(acc, d[i].0)] == (
            d[i].0,
            new_component(d[i].1)->Ok_0,
        )
}

proof fn lemma_key_pos_push<V>(s: Seq<(i32, V)>, x: (i32, V), k: i32)
    ensures
        key_pos(s, k) >= 0 ==> key_pos(s.push(x), k) == key_pos(s, k),
        key_pos(s, k) < 0 && x.0 == k ==> key_pos(s.push(x), k) == s.len(),
{
    lemma_key_pos(s, k);
    lemma_key_pos(s.push(x), k);
    let a = key_pos(s, k);
    let b = key_pos(s.push(x), k);
    if a >= 0 {
        assert(s.push(x)[a] == s[a]);
        if b >= 0 && b < a {
            assert(s.push(x)[b] == s[b]);
        }
    } else if x.0 == k {
        assert(s.push(x)[s.len() as int] == x);
        if b >= 0 && b < s.len() {
            assert(s.push(x)[b] == s[b]);
        }
    }
}

proof fn lemma_first_pass(cur: PoolM, d: Seq<(i32, ComponentDiffM)>, n: nat)
    requires
        n <= d.len(),
        all_replace(d),
        ids_distinct(d),
    ensures
        merge_pool(cur, d, n) is Ok,
        installed(merge_pool(cur, d, n)->Ok_0, d, n),
    decreases n,
{
    if n > 0 {
        lemma_first_pass(cur, d, (n - 1) as nat);
        let acc = merge_pool(cur, d, (n - 1) as nat)->Ok_0;
        let k = d[n - 1].0;
        assert(d[n - 1].1 is ReplaceCurrent);
        lemma_key_pos(acc, k);
        let p = key_pos(acc, k);
        let r = merge_pool(cur, d, n)->Ok_0;
        if p >= 0 {
            assert forall|i: int| 0 <= i < n implies key_pos(r, #[trigger] d[i].0) >= 0 && r[key_pos(
                r,
                d[i].0,
            )] == (d[i].0, new_component(d[i].1)->Ok_0) by {
                lemma_key_pos_same_keys(r, acc, d[i].0);
                if i < n - 1 {
                    assert(d[i].0 != k);
                    lemma_key_pos(acc, d[i].0);
                }
            }
        } else {
            assert forall|i: int| 0 <= i < n implies key_pos(r, #[trigger] d[i].0) >= 0 && r[key_pos(
                r,
                d[i].0,
            )] == (d[i].0, new_component(d[i].1)->Ok_0) by {
                lemma_key_pos_push(acc, (k, new_component(d[n - 1].1)->Ok_0), d[i].0);
                if i < n - 1 {
                    lemma_key_pos(acc, d[i].0);
                }
            }
        }
    }
}

proof fn lemma_second_pass(acc: PoolM, d: Seq<(i32, ComponentDiffM)>, n: nat)
    requires
        n <= d.len(),
        all_replace(d),
        installed(acc, d, d.len()),
    ensures
        merge_pool(acc, d, n) == Ok::<PoolM, crate::tree::MergeError>(acc),
    decreases n,
{
    if n > 0 {
        lemma_second_pass(acc, d, (n - 1) as nat);
        let k = d[n - 1].0;
        assert(d[n - 1].1 is ReplaceCurrent);
        assert(key_pos(acc, k) >= 0);
        let p = key_pos(acc, k);
        lemma_key_pos(acc, k);
        assert(acc.update(p, (k, acc[p].1)) =~= acc);
    }
}

/// Merging a replacing update a second time changes nothing: the root
/// fragment and every component it names are replaced by the same values.
pub proof fn law_replacing_update_is_idempotent(cur: RootM, f: FragmentM, d: RootDiffM)
    requires
        d.fragment == FragmentDiffM::ReplaceCurrent(f),
        d.components matches Some(cd) ==> all_replace(cd) && ids_distinct(cd),
    ensures
        merge_root(cur, d) is Ok,
        merge_root(merge_root(cur, d)->Ok_0, d) == merge_root(cur, d),
{
    if let Some(cd) = d.components {
        let start = match cur.components {
            Some(c) => c,
            None => Seq::empty(),
        };
        lemma_first_pass(start, cd, cd.len());
        lemma_second_pass(merge_pool(start, cd, cd.len())->Ok_0, cd, cd.len());
    }
}

} // verus!
