// Folding diffs into state, and building state from a first diff.
use vstd::prelude::*;
use vstd::std_specs::vec::axiom_vec_index_decreases;
use crate::assoc::{key_pos, lemma_key_pos, lemma_key_pos_same_keys, find_index, find_id};
use crate::tree::{
    Child, ChildDiff, ChildDiffM, ChildM, Children, Component, ComponentDiff, ComponentDiffM,
    ComponentM, ComponentStatics, ComponentStaticsM, Components, Fragment, FragmentDiff,
    FragmentDiffM, FragmentM, MergeError, PoolM, Root, RootDiff, RootDiffM, RootM, Statics,
    StaticsM, Templates, TemplatesM, child_diff_m, child_m, comp_diffs_m, comp_m, copy_strs,
    kid_diffs_m, kids_m, opt_statics_m, opt_templates_m, pool_m, row_diff_m, row_diffs_m, row_m,
    rows_m, strs_m, templates_m,
};

verus! {

// ---------------------------------------------------------------------------
// What a merge does, on the model

/// The statics of the update win when it carries any.
pub open spec fn merge_statics(cur: Option<StaticsM>, new: Option<StaticsM>) -> Option<StaticsM> {
    match new {
        Some(s) => Some(s),
        None => cur,
    }
}

/// The first `n` entries of `new` folded into `cur`: an id already present
/// gets the new statics appended to its own, a fresh id is added at the end.
pub open spec fn extend_templates(cur: TemplatesM, new: TemplatesM, n: nat) -> TemplatesM
    decreases n,
{
    if n == 0 || n > new.len() {
        cur
    } else {
        let acc = extend_templates(cur, new, (n - 1) as nat);
        let k = new[n - 1].0;
        let v = new[n - 1].1;
        let p = key_pos(acc, k);
        if p >= 0 {
            acc.update(p, (k, acc[p].1 + v))
        } else {
            acc.push((k, v))
        }
    }
}

pub open spec fn merge_templates(cur: Option<TemplatesM>, new: Option<TemplatesM>) -> Option<
    TemplatesM,
> {
    match (cur, new) {
        (None, None) => None,
        (None, Some(t)) => Some(t),
        (Some(t), None) => Some(t),
        (Some(c), Some(n)) => Some(extend_templates(c, n, n.len())),
    }
}

/// A child built from an update with no current child to merge into: only a
/// replacing fragment diff, or a comprehension diff whose rows convert, can
/// stand on its own.
pub open spec fn new_child(d: ChildDiffM) -> Result<ChildM, MergeError>
    decreases d, 0nat,
{
    match d {
        ChildDiffM::Text(s) => Ok(ChildM::Text(s)),
        ChildDiffM::ComponentID(c) => Ok(ChildM::ComponentID(c)),
        ChildDiffM::Fragment(fd) => match fd {
            FragmentDiffM::ReplaceCurrent(f) => Ok(ChildM::Fragment(f)),
            FragmentDiffM::UpdateRegular { .. } => Err(MergeError::FragmentTypeMismatch),
            FragmentDiffM::UpdateComprehension { dynamics, templates, statics } => match new_rows(
                dynamics,
                dynamics.len(),
            ) {
                Err(e) => Err(e),
                Ok(dy) => Ok(
                    ChildM::Fragment(
                        FragmentM::Comprehension { dynamics: dy, statics, templates },
                    ),
                ),
            },
        },
    }
}

/// The first `n` children of a row, each built with `new_child`.
pub open spec fn new_row(r: Seq<ChildDiffM>, n: nat) -> Result<Seq<ChildM>, MergeError>
    decreases r, n,
{
    if n == 0 || n > r.len() {
        Ok(Seq::empty())
    } else {
        match new_row(r, (n - 1) as nat) {
            Err(e) => Err(e),
            Ok(acc) => match new_child(r[n - 1]) {
                Err(e) => Err(e),
                Ok(c) => Ok(acc.push(c)),
            },
        }
    }
}

/// The first `m` rows, each built with `new_row`.
pub open spec fn new_rows(dy: Seq<Seq<ChildDiffM>>, m: nat) -> Result<Seq<Seq<ChildM>>, MergeError>
    decreases dy, m,
{
    if m == 0 || m > dy.len() {
        Ok(Seq::empty())
    } else {
        match new_rows(dy, (m - 1) as nat) {
            Err(e) => Err(e),
            Ok(acc) => match new_row(dy[m - 1], dy[m - 1].len()) {
                Err(e) => Err(e),
                Ok(r) => Ok(acc.push(r)),
            },
        }
    }
}

/// The first `n` keyed children, each built with `new_child`.
pub open spec fn new_kids(s: Seq<(usize, ChildDiffM)>, n: nat) -> Result<
    Seq<(usize, ChildM)>,
    MergeError,
>
    decreases n,
{
    if n == 0 || n > s.len() {
        Ok(Seq::empty())
    } else {
        match new_kids(s, (n - 1) as nat) {
            Err(e) => Err(e),
            Ok(acc) => match new_child(s[n - 1].1) {
                Err(e) => Err(e),
                Ok(c) => Ok(acc.push((s[n - 1].0, c))),
            },
        }
    }
}

/// The first `n` child updates applied in order; each must name a child
/// that is already there.
pub open spec fn merge_children(
    cur: Seq<(usize, ChildM)>,
    diff: Seq<(usize, ChildDiffM)>,
    n: nat,
) -> Result<Seq<(usize, ChildM)>, MergeError>
    decreases diff, n,
{
    if n == 0 || n > diff.len() {
        Ok(cur)
    } else {
        match merge_children(cur, diff, (n - 1) as nat) {
            Err(e) => Err(e),
            Ok(acc) => {
                let k = diff[n - 1].0;
                let p = key_pos(acc, k);
                if p < 0 {
                    Err(MergeError::AddChildToExisting)
                } else {
                    match merge_child(acc[p].1, diff[n - 1].1) {
                        Err(e) => Err(e),
                        Ok(c) => Ok(acc.update(p, (k, c))),
                    }
                }
            },
        }
    }
}

pub open spec fn merge_child(cur: ChildM, d: ChildDiffM) -> Result<ChildM, MergeError>
    decreases d, 0nat,
{
    match (cur, d) {
        (ChildM::Fragment(f), ChildDiffM::Fragment(fd)) => match merge_fragment(f, fd) {
            Err(e) => Err(e),
            Ok(x) => Ok(ChildM::Fragment(x)),
        },
        (_, ChildDiffM::Text(s)) => Ok(ChildM::Text(s)),
        (_, ChildDiffM::ComponentID(id)) => Ok(ChildM::ComponentID(id)),
        (_, ChildDiffM::Fragment(fd)) => match fd {
            FragmentDiffM::ReplaceCurrent(f) => Ok(ChildM::Fragment(f)),
            _ => Err(MergeError::CreateChildFromUpdateFragment),
        },
    }
}

pub open spec fn merge_fragment(cur: FragmentM, d: FragmentDiffM) -> Result<FragmentM, MergeError>
    decreases d, 0nat,
{
    match (cur, d) {
        (_, FragmentDiffM::ReplaceCurrent(f)) => Ok(f),
        (
            FragmentM::Regular { children, statics },
            FragmentDiffM::UpdateRegular { children: cd },
        ) => match merge_children(children, cd, cd.len()) {
            Err(e) => Err(e),
            Ok(c) => Ok(FragmentM::Regular { children: c, statics }),
        },
        (
            FragmentM::Comprehension { statics: cs, templates: ct, .. },
            FragmentDiffM::UpdateComprehension { dynamics, templates, statics },
        ) => match new_rows(dynamics, dynamics.len()) {
            Err(e) => Err(e),
            Ok(dy) => Ok(
                FragmentM::Comprehension {
                    dynamics: dy,
                    statics: merge_statics(cs, statics),
                    templates: merge_templates(ct, templates),
                },
            ),
        },
        _ => Err(MergeError::FragmentTypeMismatch),
    }
}

/// A negative component reference becomes the positive one; `i32::MIN`,
/// which has no positive counterpart, is left as it is.
pub open spec fn fix_statics_m(c: ComponentM) -> ComponentM {
    match c.statics {
        ComponentStaticsM::ComponentRef(cid) => if cid < 0 && cid > i32::MIN {
            ComponentM { children: c.children, statics: ComponentStaticsM::ComponentRef(-cid as i32) }
        } else {
            c
        },
        _ => c,
    }
}

pub open spec fn new_component(d: ComponentDiffM) -> Result<ComponentM, MergeError> {
    match d {
        ComponentDiffM::UpdateRegular { .. } => Err(MergeError::CreateComponentFromUpdate),
        ComponentDiffM::ReplaceCurrent { children, statics } => Ok(
            fix_statics_m(ComponentM { children, statics }),
        ),
    }
}

pub open spec fn merge_component(cur: ComponentM, d: ComponentDiffM) -> Result<
    ComponentM,
    MergeError,
> {
    match d {
        ComponentDiffM::UpdateRegular { children } => match merge_children(
            cur.children,
            children,
            children.len(),
        ) {
            Err(e) => Err(e),
            Ok(c) => Ok(ComponentM { children: c, statics: cur.statics }),
        },
        ComponentDiffM::ReplaceCurrent { children, statics } => Ok(
            fix_statics_m(ComponentM { children, statics }),
        ),
    }
}

/// The first `n` component updates applied in order: a known id is merged,
/// a new one is installed. Components the update does not name stay.
pub open spec fn merge_pool(cur: PoolM, d: Seq<(i32, ComponentDiffM)>, n: nat) -> Result<
    PoolM,
    MergeError,
>
    decreases n,
{
    if n == 0 || n > d.len() {
        Ok(cur)
    } else {
        match merge_pool(cur, d, (n - 1) as nat) {
            Err(e) => Err(e),
            Ok(acc) => {
                let k = d[n - 1].0;
                let p = key_pos(acc, k);
                if p >= 0 {
                    match merge_component(acc[p].1, d[n - 1].1) {
                        Err(e) => Err(e),
                        Ok(c) => Ok(acc.update(p, (k, c))),
                    }
                } else {
                    match new_component(d[n - 1].1) {
                        Err(e) => Err(e),
                        Ok(c) => Ok(acc.push((k, c))),
                    }
                }
            },
        }
    }
}

pub open spec fn merge_opt_pool(cur: Option<PoolM>, d: Option<Seq<(i32, ComponentDiffM)>>) -> Result<
    Option<PoolM>,
    MergeError,
> {
    match (cur, d) {
        (None, None) => Ok(None),
        (Some(c), None) => Ok(Some(c)),
        (None, Some(cd)) => match merge_pool(Seq::empty(), cd, cd.len()) {
            Err(e) => Err(e),
            Ok(p) => Ok(Some(p)),
        },
        (Some(c), Some(cd)) => match merge_pool(c, cd, cd.len()) {
            Err(e) => Err(e),
            Ok(p) => Ok(Some(p)),
        },
    }
}

pub open spec fn merge_root(cur: RootM, d: RootDiffM) -> Result<RootM, MergeError> {
    match merge_fragment(cur.fragment, d.fragment) {
        Err(e) => Err(e),
        Ok(f) => match merge_opt_pool(cur.components, d.components) {
            Err(e) => Err(e),
            Ok(c) => Ok(RootM { fragment: f, components: c }),
        },
    }
}

/// A fragment built from the first diff: a children-only update gets blank
/// statics, one more than its children, so that it renders as its children.
pub open spec fn fragment_from_diff(d: FragmentDiffM) -> Result<FragmentM, MergeError> {
    match d {
        FragmentDiffM::UpdateRegular { children } => match new_kids(children, children.len()) {
            Err(e) => Err(e),
            Ok(c) => Ok(
                FragmentM::Regular {
                    children: c,
                    statics: StaticsM::Inline(Seq::new(c.len() + 1, |i: int| Seq::<char>::empty())),
                },
            ),
        },
        FragmentDiffM::ReplaceCurrent(f) => Ok(f),
        FragmentDiffM::UpdateComprehension { dynamics, templates, statics } => match new_rows(
            dynamics,
            dynamics.len(),
        ) {
            Err(e) => Err(e),
            Ok(dy) => Ok(FragmentM::Comprehension { dynamics: dy, statics, templates }),
        },
    }
}

/// The first `n` components of a first diff, each installed with `new_component`.
pub open spec fn new_pool(d: Seq<(i32, ComponentDiffM)>, n: nat) -> Result<PoolM, MergeError>
    decreases n,
{
    if n == 0 || n > d.len() {
        Ok(Seq::empty())
    } else {
        match new_pool(d, (n - 1) as nat) {
            Err(e) => Err(e),
            Ok(acc) => match new_component(d[n - 1].1) {
                Err(e) => Err(e),
                Ok(c) => Ok(acc.push((d[n - 1].0, c))),
            },
        }
    }
}

/// The tree a first, full diff describes. Its components are built before
/// its fragment, so their errors come first.
pub open spec fn root_from_diff(d: RootDiffM) -> Result<RootM, MergeError> {
    let comps = match d.components {
        None => Ok(None),
        Some(cd) => match new_pool(cd, cd.len()) {
            Err(e) => Err(e),
            Ok(p) => Ok(Some(p)),
        },
    };
    match comps {
        Err(e) => Err(e),
        Ok(c) => match fragment_from_diff(d.fragment) {
            Err(e) => Err(e),
            Ok(f) => Ok(RootM { fragment: f, components: c }),
        },
    }
}

// ---------------------------------------------------------------------------
// Views of results

pub open spec fn res_m<T: View>(r: Result<T, MergeError>) -> Result<T::V, MergeError> {
    match r {
        Ok(x) => Ok(x@),
        Err(e) => Err(e),
    }
}

pub open spec fn kids_res(r: Result<Children, MergeError>) -> Result<Seq<(usize, ChildM)>, MergeError> {
    match r {
        Ok(x) => Ok(kids_m(x@)),
        Err(e) => Err(e),
    }
}

pub open spec fn rows_res(r: Result<Vec<Vec<Child>>, MergeError>) -> Result<Seq<Seq<ChildM>>, MergeError> {
    match r {
        Ok(x) => Ok(rows_m(x@)),
        Err(e) => Err(e),
    }
}

pub open spec fn row_res(r: Result<Vec<Child>, MergeError>) -> Result<Seq<ChildM>, MergeError> {
    match r {
        Ok(x) => Ok(row_m(x@)),
        Err(e) => Err(e),
    }
}

pub open spec fn pool_res(r: Result<Components, MergeError>) -> Result<PoolM, MergeError> {
    match r {
        Ok(x) => Ok(pool_m(x@)),
        Err(e) => Err(e),
    }
}

} // verus!

verus! {

// ---------------------------------------------------------------------------
// Once a step fails, the fold keeps that error

proof fn lemma_new_row_err(r: Seq<ChildDiffM>, j: nat, m: nat)
    requires
        j <= m <= r.len(),
        new_row(r, j) is Err,
    ensures
        new_row(r, m) == new_row(r, j),
    decreases m - j,
{
    if j < m {
        lemma_new_row_err(r, j, (m - 1) as nat);
    }
}

proof fn lemma_new_rows_err(dy: Seq<Seq<ChildDiffM>>, j: nat, m: nat)
    requires
        j <= m <= dy.len(),
        new_rows(dy, j) is Err,
    ensures
        new_rows(dy, m) == new_rows(dy, j),
    decreases m - j,
{
    if j < m {
        lemma_new_rows_err(dy, j, (m - 1) as nat);
    }
}

proof fn lemma_new_kids_err(s: Seq<(usize, ChildDiffM)>, j: nat, m: nat)
    requires
        j <= m <= s.len(),
        new_kids(s, j) is Err,
    ensures
        new_kids(s, m) == new_kids(s, j),
    decreases m - j,
{
    if j < m {
        lemma_new_kids_err(s, j, (m - 1) as nat);
    }
}

proof fn lemma_merge_children_err(
    cur: Seq<(usize, ChildM)>,
    diff: Seq<(usize, ChildDiffM)>,
    j: nat,
    m: nat,
)
    requires
        j <= m <= diff.len(),
        merge_children(cur, diff, j) is Err,
    ensures
        merge_children(cur, diff, m) == merge_children(cur, diff, j),
    decreases m - j,
{
    if j < m {
        lemma_merge_children_err(cur, diff, j, (m - 1) as nat);
    }
}

proof fn lemma_merge_pool_err(cur: PoolM, d: Seq<(i32, ComponentDiffM)>, j: nat, m: nat)
    requires
        j <= m <= d.len(),
        merge_pool(cur, d, j) is Err,
    ensures
        merge_pool(cur, d, m) == merge_pool(cur, d, j),
    decreases m - j,
{
    if j < m {
        lemma_merge_pool_err(cur, d, j, (m - 1) as nat);
    }
}

proof fn lemma_new_pool_err(d: Seq<(i32, ComponentDiffM)>, j: nat, m: nat)
    requires
        j <= m <= d.len(),
        new_pool(d, j) is Err,
    ensures
        new_pool(d, m) == new_pool(d, j),
    decreases m - j,
{
    if j < m {
        lemma_new_pool_err(d, j, (m - 1) as nat);
    }
}

// ---------------------------------------------------------------------------
// Building state from updates

fn new_child_exec(d: ChildDiff) -> (r: Result<Child, MergeError>)
    ensures
        res_m(r) == new_child(d@),
    decreases d, 0nat,
{
    match d {
        ChildDiff::String(s) => Ok(Child::String(s)),
        ChildDiff::ComponentID(c) => Ok(Child::ComponentID(c)),
        ChildDiff::Fragment(fd) => match fd {
            FragmentDiff::ReplaceCurrent(f) => Ok(Child::Fragment(f)),
            FragmentDiff::UpdateRegular { .. } => Err(MergeError::FragmentTypeMismatch),
            FragmentDiff::UpdateComprehension { dynamics, templates, statics } => {
                match new_rows_exec(dynamics) {
                    Err(e) => Err(e),
                    Ok(dy) => Ok(
                        Child::Fragment(
                            Fragment::Comprehension { dynamics: dy, statics, templates },
                        ),
                    ),
                }
            },
        },
    }
}

fn new_row_exec(r: Vec<ChildDiff>) -> (res: Result<Vec<Child>, MergeError>)
    ensures
        row_res(res) == new_row(row_diff_m(r@), r@.len()),
    decreases r, 0nat,
{
    let ghost r0 = r@;
    let ghost whole = r;
    let ghost rm = row_diff_m(r@);
    let n = r.len();
    let mut src = r;
    let mut out: Vec<Child> = Vec::new();
    assert(row_m(out@) =~= Seq::empty());
    let mut i: usize = 0;
    while i < n
        invariant
            i <= n,
            n == r0.len(),
            rm == row_diff_m(r0),
            rm.len() == n,
            whole@ == r0,
            whole == r,
            r0 == r@,
            src@ == r0.subrange(i as int, n as int),
            new_row(rm, i as nat) == Ok::<Seq<ChildM>, MergeError>(row_m(out@)),
        decreases n - i,
    {
        let x = src.remove(0);
        assert(x == r0[i as int]);
        proof {
            axiom_vec_index_decreases(whole, i as int);
        }
        match new_child_exec(x) {
            Err(e) => {
                proof {
                    lemma_new_row_err(rm, (i + 1) as nat, n as nat);
                }
                return Err(e);
            },
            Ok(c) => {
                let ghost o = out@;
                out.push(c);
                assert(row_m(out@) =~= row_m(o).push(child_m(c)));
            },
        }
        i = i + 1;
    }
    Ok(out)
}

fn new_rows_exec(dy: Vec<Vec<ChildDiff>>) -> (res: Result<Vec<Vec<Child>>, MergeError>)
    ensures
        rows_res(res) == new_rows(row_diffs_m(dy@), dy@.len()),
    decreases dy, 0nat,
{
    let ghost d0 = dy@;
    let ghost whole = dy;
    let ghost dm = row_diffs_m(dy@);
    let n = dy.len();
    let mut src = dy;
    let mut out: Vec<Vec<Child>> = Vec::new();
    assert(rows_m(out@) =~= Seq::empty());
    let mut i: usize = 0;
    while i < n
        invariant
            i <= n,
            n == d0.len(),
            dm == row_diffs_m(d0),
            dm.len() == n,
            whole@ == d0,
            whole == dy,
            d0 == dy@,
            src@ == d0.subrange(i as int, n as int),
            new_rows(dm, i as nat) == Ok::<Seq<Seq<ChildM>>, MergeError>(rows_m(out@)),
        decreases n - i,
    {
        let x = src.remove(0);
        assert(x == d0[i as int]);
        proof {
            axiom_vec_index_decreases(whole, i as int);
        }
        assert(dm[i as int] == row_diff_m(x@));
        match new_row_exec(x) {
            Err(e) => {
                proof {
                    lemma_new_rows_err(dm, (i + 1) as nat, n as nat);
                }
                return Err(e);
            },
            Ok(r) => {
                let ghost o = out@;
                out.push(r);
                assert(rows_m(out@) =~= rows_m(o).push(row_m(r@)));
            },
        }
        i = i + 1;
    }
    Ok(out)
}

pub(crate) fn new_kids_exec(s: Vec<(usize, ChildDiff)>) -> (res: Result<Children, MergeError>)
    ensures
        kids_res(res) == new_kids(kid_diffs_m(s@), s@.len()),
{
    let ghost s0 = s@;
    let ghost sm = kid_diffs_m(s@);
    let n = s.len();
    let mut src = s;
    let mut out: Children = Vec::new();
    assert(kids_m(out@) =~= Seq::empty());
    let mut i: usize = 0;
    while i < n
        invariant
            i <= n,
            n == s0.len(),
            sm == kid_diffs_m(s0),
            sm.len() == n,
            s0 == s@,
            src@ == s0.subrange(i as int, n as int),
            new_kids(sm, i as nat) == Ok::<Seq<(usize, ChildM)>, MergeError>(kids_m(out@)),
        decreases n - i,
    {
        let (k, x) = src.remove(0);
        assert((k, x) == s0[i as int]);
        assert(sm[i as int] == (k, child_diff_m(x)));
        match new_child_exec(x) {
            Err(e) => {
                proof {
                    assert(new_kids(sm, (i + 1) as nat) is Err);
                    lemma_new_kids_err(sm, (i + 1) as nat, n as nat);
                }
                return Err(e);
            },
            Ok(c) => {
                let ghost o = out@;
                out.push((k, c));
                assert(kids_m(out@) =~= kids_m(o).push((k, child_m(c))));
            },
        }
        i = i + 1;
    }
    Ok(out)
}

// ---------------------------------------------------------------------------
// Merging

fn merge_statics_exec(cur: Option<Statics>, new: Option<Statics>) -> (r: Option<Statics>)
    ensures
        opt_statics_m(r) == merge_statics(opt_statics_m(cur), opt_statics_m(new)),
{
    match new {
        Some(s) => Some(s),
        None => cur,
    }
}

fn merge_templates_exec(cur: Templates, new: Templates) -> (r: Templates)
    ensures
        opt_templates_m(r) == merge_templates(opt_templates_m(cur), opt_templates_m(new)),
{
    match (cur, new) {
        (None, None) => None,
        (None, Some(t)) => Some(t),
        (Some(t), None) => Some(t),
        (Some(c), Some(n)) => {
            let ghost c0 = templates_m(c@);
            let ghost nm = templates_m(n@);
            let mut c = c;
            let mut i: usize = 0;
            while i < n.len()
                invariant
                    i <= n@.len(),
                    nm == templates_m(n@),
                    templates_m(c@) == extend_templates(c0, nm, i as nat),
                decreases n@.len() - i,
            {
                let k = n[i].0;
                let mut v = copy_strs(&n[i].1);
                proof {
                    lemma_key_pos_same_keys(templates_m(c@), c@, k);
                    lemma_key_pos(c@, k);
                }
                let ghost acc = templates_m(c@);
                match find_id(&c, k) {
                    Some(p) => {
                        let ghost cs = c@;
                        let (k0, mut vals) = c.remove(p);
                        let ghost vals0 = vals@;
                        let ghost vm = v@;
                        vals.append(&mut v);
                        c.insert(p, (k0, vals));
                        assert(c@ =~= cs.update(p as int, (k0, vals)));
                        assert(strs_m(vals@) =~= strs_m(vals0) + strs_m(vm));
                        assert(templates_m(c@) =~= acc.update(p as int, (k, acc[p as int].1 + nm[i as int].1)));
                    },
                    None => {
                        let ghost cs = c@;
                        c.push((k, v));
                        assert(templates_m(c@) =~= acc.push((k, nm[i as int].1)));
                    },
                }
                i = i + 1;
            }
            Some(c)
        },
    }
}

fn merge_children_exec(cur: Children, diff: Vec<(usize, ChildDiff)>) -> (r: Result<
    Children,
    MergeError,
>)
    ensures
        kids_res(r) == merge_children(kids_m(cur@), kid_diffs_m(diff@), diff@.len()),
    decreases diff, 0nat,
{
    let ghost d0 = diff@;
    let ghost whole = diff;
    let ghost dm = kid_diffs_m(diff@);
    let ghost cm = kids_m(cur@);
    let n = diff.len();
    let mut src = diff;
    let mut acc = cur;
    let mut i: usize = 0;
    while i < n
        invariant
            i <= n,
            n == d0.len(),
            dm == kid_diffs_m(d0),
            dm.len() == n,
            whole@ == d0,
            whole == diff,
            d0 == diff@,
            cm == kids_m(cur@),
            src@ == d0.subrange(i as int, n as int),
            merge_children(cm, dm, i as nat) == Ok::<Seq<(usize, ChildM)>, MergeError>(
                kids_m(acc@),
            ),
        decreases n - i,
    {
        let (k, d) = src.remove(0);
        assert((k, d) == d0[i as int]);
        proof {
            axiom_vec_index_decreases(whole, i as int);
            lemma_key_pos_same_keys(kids_m(acc@), acc@, k);
            lemma_key_pos(acc@, k);
        }
        let ghost am = kids_m(acc@);
        match find_index(&acc, k) {
            None => {
                proof {
                    lemma_merge_children_err(cm, dm, (i + 1) as nat, n as nat);
                }
                return Err(MergeError::AddChildToExisting);
            },
            Some(p) => {
                let ghost a0 = acc@;
                let (k0, c) = acc.remove(p);
                assert(c == a0[p as int].1);
                match merge_child_exec(c, d) {
                    Err(e) => {
                        proof {
                            lemma_merge_children_err(cm, dm, (i + 1) as nat, n as nat);
                        }
                        return Err(e);
                    },
                    Ok(m) => {
                        acc.insert(p, (k0, m));
                        assert(acc@ =~= a0.update(p as int, (k0, m)));
                        assert(kids_m(acc@) =~= am.update(p as int, (k, child_m(m))));
                    },
                }
            },
        }
        i = i + 1;
    }
    Ok(acc)
}

fn merge_child_exec(cur: Child, d: ChildDiff) -> (r: Result<Child, MergeError>)
    ensures
        res_m(r) == merge_child(cur@, d@),
    decreases d, 0nat,
{
    match d {
        ChildDiff::Fragment(fd) => match cur {
            Child::Fragment(f) => match merge_fragment_exec(f, fd) {
                Err(e) => Err(e),
                Ok(x) => Ok(Child::Fragment(x)),
            },
            _ => match fd {
                FragmentDiff::ReplaceCurrent(f) => Ok(Child::Fragment(f)),
                _ => Err(MergeError::CreateChildFromUpdateFragment),
            },
        },
        ChildDiff::String(s) => Ok(Child::String(s)),
        ChildDiff::ComponentID(id) => Ok(Child::ComponentID(id)),
    }
}

fn merge_fragment_exec(cur: Fragment, d: FragmentDiff) -> (r: Result<Fragment, MergeError>)
    ensures
        res_m(r) == merge_fragment(cur@, d@),
    decreases d, 0nat,
{
    match d {
        FragmentDiff::ReplaceCurrent(f) => Ok(f),
        FragmentDiff::UpdateRegular { children: cd } => match cur {
            Fragment::Regular { children, statics } => match merge_children_exec(children, cd) {
                Err(e) => Err(e),
                Ok(c) => Ok(Fragment::Regular { children: c, statics }),
            },
            _ => Err(MergeError::FragmentTypeMismatch),
        },
        FragmentDiff::UpdateComprehension { dynamics, templates, statics } => match cur {
            Fragment::Comprehension { statics: cs, templates: ct, .. } => {
                let t = merge_templates_exec(ct, templates);
                match new_rows_exec(dynamics) {
                    Err(e) => Err(e),
                    Ok(dy) => Ok(
                        Fragment::Comprehension {
                            dynamics: dy,
                            statics: merge_statics_exec(cs, statics),
                            templates: t,
                        },
                    ),
                }
            },
            _ => Err(MergeError::FragmentTypeMismatch),
        },
    }
}

fn merge_component_exec(cur: Component, d: ComponentDiff) -> (r: Result<Component, MergeError>)
    ensures
        res_m(r) == merge_component(cur@, d@),
{
    match d {
        ComponentDiff::UpdateRegular { children } => match merge_children_exec(
            cur.children,
            children,
        ) {
            Err(e) => Err(e),
            Ok(c) => Ok(Component { children: c, statics: cur.statics }),
        },
        ComponentDiff::ReplaceCurrent { children, statics } => Ok(
            Component { children, statics }.fix_statics(),
        ),
    }
}

fn merge_pool_exec(cur: Components, diff: Vec<(i32, ComponentDiff)>) -> (r: Result<
    Components,
    MergeError,
>)
    ensures
        pool_res(r) == merge_pool(pool_m(cur@), comp_diffs_m(diff@), diff@.len()),
{
    let ghost d0 = diff@;
    let ghost dm = comp_diffs_m(diff@);
    let ghost cm = pool_m(cur@);
    let n = diff.len();
    let mut src = diff;
    let mut acc = cur;
    let mut i: usize = 0;
    while i < n
        invariant
            i <= n,
            n == d0.len(),
            dm == comp_diffs_m(d0),
            dm.len() == n,
            d0 == diff@,
            cm == pool_m(cur@),
            src@ == d0.subrange(i as int, n as int),
            merge_pool(cm, dm, i as nat) == Ok::<PoolM, MergeError>(pool_m(acc@)),
        decreases n - i,
    {
        let (k, d) = src.remove(0);
        assert((k, d) == d0[i as int]);
        proof {
            lemma_key_pos_same_keys(pool_m(acc@), acc@, k);
            lemma_key_pos(acc@, k);
        }
        let ghost am = pool_m(acc@);
        match find_id(&acc, k) {
            Some(p) => {
                let ghost a0 = acc@;
                let (k0, c) = acc.remove(p);
                assert(c == a0[p as int].1);
                match merge_component_exec(c, d) {
                    Err(e) => {
                        proof {
                            lemma_merge_pool_err(cm, dm, (i + 1) as nat, n as nat);
                        }
                        return Err(e);
                    },
                    Ok(m) => {
                        acc.insert(p, (k0, m));
                        assert(acc@ =~= a0.update(p as int, (k0, m)));
                        assert(pool_m(acc@) =~= am.update(p as int, (k, comp_m(m))));
                    },
                }
            },
            None => match d.to_new_component() {
                Err(e) => {
                    proof {
                        lemma_merge_pool_err(cm, dm, (i + 1) as nat, n as nat);
                    }
                    return Err(e);
                },
                Ok(c) => {
                    acc.push((k, c));
                    assert(pool_m(acc@) =~= am.push((k, comp_m(c))));
                },
            },
        }
        i = i + 1;
    }
    Ok(acc)
}

fn new_pool_exec(diff: Vec<(i32, ComponentDiff)>) -> (r: Result<Components, MergeError>)
    ensures
        pool_res(r) == new_pool(comp_diffs_m(diff@), diff@.len()),
{
    let ghost d0 = diff@;
    let ghost dm = comp_diffs_m(diff@);
    let n = diff.len();
    let mut src = diff;
    let mut acc: Components = Vec::new();
    assert(pool_m(acc@) =~= Seq::empty());
    let mut i: usize = 0;
    while i < n
        invariant
            i <= n,
            n == d0.len(),
            dm == comp_diffs_m(d0),
            dm.len() == n,
            d0 == diff@,
            src@ == d0.subrange(i as int, n as int),
            new_pool(dm, i as nat) == Ok::<PoolM, MergeError>(pool_m(acc@)),
        decreases n - i,
    {
        let (k, d) = src.remove(0);
        assert((k, d) == d0[i as int]);
        let ghost am = pool_m(acc@);
        match d.to_new_component() {
            Err(e) => {
                proof {
                    lemma_new_pool_err(dm, (i + 1) as nat, n as nat);
                }
                return Err(e);
            },
            Ok(c) => {
                acc.push((k, c));
                assert(pool_m(acc@) =~= am.push((k, comp_m(c))));
            },
        }
        i = i + 1;
    }
    Ok(acc)
}

impl Component {
    /// Turns a negative component reference into the positive one.
    pub fn fix_statics(self) -> (r: Self)
        ensures
            r@ == fix_statics_m(self@),
    {
        match self.statics {
            ComponentStatics::ComponentRef(cid) => {
                if cid < 0 && cid > i32::MIN {
                    Component { children: self.children, statics: ComponentStatics::ComponentRef(-cid) }
                } else {
                    Component { children: self.children, statics: ComponentStatics::ComponentRef(cid) }
                }
            },
            ComponentStatics::Statics(s) => Component {
                children: self.children,
                statics: ComponentStatics::Statics(s),
            },
        }
    }
}

impl ComponentDiff {
    /// Installs a component that is not in the pool yet: only a full
    /// description can be, and a negative reference in it is made positive.
    pub fn to_new_component(self) -> (r: Result<Component, MergeError>)
        ensures
            res_m(r) == new_component(self@),
    {
        match self {
            ComponentDiff::UpdateRegular { .. } => Err(MergeError::CreateComponentFromUpdate),
            ComponentDiff::ReplaceCurrent { children, statics } => Ok(
                Component { children, statics }.fix_statics(),
            ),
        }
    }
}

impl ChildDiff {
    /// Builds a child from an update when there is no child to merge it into.
    pub fn to_new_child(self) -> (r: Result<Child, MergeError>)
        ensures
            res_m(r) == new_child(self@),
    {
        new_child_exec(self)
    }
}

impl Fragment {
    /// The fragment a first diff describes.
    pub fn from_diff(d: FragmentDiff) -> (r: Result<Fragment, MergeError>)
        ensures
            res_m(r) == fragment_from_diff(d@),
    {
        match d {
            FragmentDiff::UpdateRegular { children } => match new_kids_exec(children) {
                Err(e) => Err(e),
                Ok(c) => {
                    let mut st: Vec<String> = Vec::new();
                    st.push(String::new());
                    let mut i: usize = 0;
                    while i < c.len()
                        invariant
                            i <= c@.len(),
                            st@.len() == i + 1,
                            forall|j: int| 0 <= j <= i ==> st@[j]@ == Seq::<char>::empty(),
                        decreases c@.len() - i,
                    {
                        st.push(String::new());
                        i = i + 1;
                    }
                    let r = Fragment::Regular { children: c, statics: Statics::Statics(st) };
                    assert(strs_m(st@) =~= Seq::new(kids_m(c@).len() + 1, |i: int| Seq::<char>::empty()));
                    Ok(r)
                },
            },
            FragmentDiff::ReplaceCurrent(f) => Ok(f),
            FragmentDiff::UpdateComprehension { dynamics, templates, statics } => match new_rows_exec(
                dynamics,
            ) {
                Err(e) => Err(e),
                Ok(dy) => Ok(Fragment::Comprehension { dynamics: dy, statics, templates }),
            },
        }
    }
}

impl Root {
    /// The tree a first, full diff describes.
    pub fn from_diff(d: RootDiff) -> (r: Result<Root, MergeError>)
        ensures
            res_m(r) == root_from_diff(d@),
    {
        let components = match d.components {
            None => None,
            Some(cd) => match new_pool_exec(cd) {
                Err(e) => {
                    return Err(e);
                },
                Ok(p) => Some(p),
            },
        };
        match Fragment::from_diff(d.fragment) {
            Err(e) => Err(e),
            Ok(f) => Ok(Root { fragment: f, components }),
        }
    }
}

} // verus!

verus! {

/// Folding an update into a piece of state.
pub trait FragmentMerge: Sized {
    type DiffItem;

    /// Whether `r` is what merging `diff` into `self` gives.
    spec fn merged_as(self, diff: Self::DiffItem, r: Result<Self, MergeError>) -> bool;

    fn merge(self, diff: Self::DiffItem) -> (r: Result<Self, MergeError>)
        ensures
            Self::merged_as(self, diff, r),
    ;
}

impl FragmentMerge for Root {
    type DiffItem = RootDiff;

    open spec fn merged_as(self, diff: RootDiff, r: Result<Root, MergeError>) -> bool {
        res_m(r) == merge_root(self@, diff@)
    }

    fn merge(self, diff: RootDiff) -> (r: Result<Root, MergeError>) {
        let fragment = match merge_fragment_exec(self.fragment, diff.fragment) {
            Err(e) => {
                return Err(e);
            },
            Ok(f) => f,
        };
        let components = match (self.components, diff.components) {
            (None, None) => None,
            (None, Some(cd)) => {
                let empty: Components = Vec::new();
                assert(pool_m(empty@) =~= Seq::empty());
                match merge_pool_exec(empty, cd) {
                    Err(e) => {
                        return Err(e);
                    },
                    Ok(p) => Some(p),
                }
            },
            (Some(c), None) => Some(c),
            (Some(c), Some(cd)) => match merge_pool_exec(c, cd) {
                Err(e) => {
                    return Err(e);
                },
                Ok(p) => Some(p),
            },
        };
        Ok(Root { fragment, components })
    }
}

impl FragmentMerge for Fragment {
    type DiffItem = FragmentDiff;

    open spec fn merged_as(self, diff: FragmentDiff, r: Result<Fragment, MergeError>) -> bool {
        res_m(r) == merge_fragment(self@, diff@)
    }

    fn merge(self, diff: FragmentDiff) -> (r: Result<Fragment, MergeError>) {
        merge_fragment_exec(self, diff)
    }
}

impl FragmentMerge for Component {
    type DiffItem = ComponentDiff;

    open spec fn merged_as(self, diff: ComponentDiff, r: Result<Component, MergeError>) -> bool {
        res_m(r) == merge_component(self@, diff@)
    }

    fn merge(self, diff: ComponentDiff) -> (r: Result<Component, MergeError>) {
        merge_component_exec(self, diff)
    }
}

impl FragmentMerge for Child {
    type DiffItem = ChildDiff;

    open spec fn merged_as(self, diff: ChildDiff, r: Result<Child, MergeError>) -> bool {
        res_m(r) == merge_child(self@, diff@)
    }

    fn merge(self, diff: ChildDiff) -> (r: Result<Child, MergeError>) {
        merge_child_exec(self, diff)
    }
}

impl FragmentMerge for Option<Statics> {
    type DiffItem = Option<Statics>;

    open spec fn merged_as(self, diff: Option<Statics>, r: Result<Option<Statics>, MergeError>) -> bool {
        match r {
            Ok(x) => opt_statics_m(x) == merge_statics(opt_statics_m(self), opt_statics_m(diff)),
            Err(_) => false,
        }
    }

    fn merge(self, diff: Option<Statics>) -> (r: Result<Option<Statics>, MergeError>) {
        Ok(merge_statics_exec(self, diff))
    }
}

impl FragmentMerge for Templates {
    type DiffItem = Templates;

    open spec fn merged_as(self, diff: Templates, r: Result<Templates, MergeError>) -> bool {
        match r {
            Ok(x) => opt_templates_m(x) == merge_templates(
                opt_templates_m(self),
                opt_templates_m(diff),
            ),
            Err(_) => false,
        }
    }

    fn merge(self, diff: Templates) -> (r: Result<Templates, MergeError>) {
        Ok(merge_templates_exec(self, diff))
    }
}

impl FragmentMerge for Components {
    type DiffItem = Vec<(i32, ComponentDiff)>;

    open spec fn merged_as(
        self,
        diff: Vec<(i32, ComponentDiff)>,
        r: Result<Components, MergeError>,
    ) -> bool {
        pool_res(r) == merge_pool(pool_m(self@), comp_diffs_m(diff@), diff@.len())
    }

    fn merge(self, diff: Vec<(i32, ComponentDiff)>) -> (r: Result<Components, MergeError>) {
        merge_pool_exec(self, diff)
    }
}

impl FragmentMerge for Children {
    type DiffItem = Vec<(usize, ChildDiff)>;

    open spec fn merged_as(self, diff: Vec<(usize, ChildDiff)>, r: Result<Children, MergeError>) -> bool {
        kids_res(r) == merge_children(kids_m(self@), kid_diffs_m(diff@), diff@.len())
    }

    fn merge(self, diff: Vec<(usize, ChildDiff)>) -> (r: Result<Children, MergeError>) {
        merge_children_exec(self, diff)
    }
}

} // verus!
