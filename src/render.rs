// Rendering a state tree to the document text.
use vstd::prelude::*;
use crate::assoc::{key_pos, lookup, lemma_key_pos, lemma_key_pos_same_keys, find_index, find_id};
use crate::tree::{
    Child, ChildM, Children, Component, ComponentM, ComponentStatics, ComponentStaticsM,
    Components, Fragment, FragmentM, PoolM, RenderError, Statics, StaticsM, Strs, Templates,
    TemplatesM, comp_m, copy_opt_templates, copy_strs, copy_templates, Dynamics, Root, RootM,
    kids_m, opt_pool_m, opt_templates_m, pool_m, row_m, rows_m, strs_m, templates_m,
};

verus! {

pub open spec fn opt_strs_m(o: Option<Vec<String>>) -> Option<Strs> {
    match o {
        Some(v) => Some(strs_m(v@)),
        None => None,
    }
}

pub open spec fn text_of(r: Result<String, RenderError>) -> Result<Seq<char>, RenderError> {
    match r {
        Ok(s) => Ok(s@),
        Err(e) => Err(e),
    }
}

/// Inline statics that a child offers to a cousin: those of a regular
/// fragment or of a comprehension, when they are inline.
pub open spec fn child_statics_m(c: ChildM) -> Option<Strs> {
    match c {
        ChildM::Fragment(FragmentM::Regular { statics: StaticsM::Inline(s), .. }) => Some(s),
        ChildM::Fragment(FragmentM::Comprehension { statics: Some(StaticsM::Inline(s)), .. }) => Some(
            s,
        ),
        _ => None,
    }
}

/// Templates in scope inside a comprehension: its own entries come first and
/// so win on lookup; the enclosing ones stay visible for other ids.
pub open spec fn scope_templates(parent: Option<TemplatesM>, own: Option<TemplatesM>) -> Option<
    TemplatesM,
> {
    match (parent, own) {
        (None, None) => None,
        (None, Some(t)) => Some(t),
        (Some(t), None) => Some(t),
        (Some(p), Some(c)) => Some(c + p),
    }
}

/// How many nested component expansions a component's render may take: a
/// deeper nesting visits some component twice and would never end. A render
/// that starts above the components (a fragment, a child, the root) gets one
/// more, so that a component id renders exactly as the component itself does.
pub open spec fn pool_fuel(pool: Option<PoolM>) -> nat {
    match pool {
        Some(p) => p.len(),
        None => 0,
    }
}

/// Follows a chain of component references from `cid` to the first component
/// with inline statics, taking at most `steps` more hops.
pub open spec fn resolve_chain(pool: Option<PoolM>, cid: i32, steps: nat) -> Result<
    ComponentM,
    RenderError,
>
    decreases steps,
{
    match pool {
        None => Err(RenderError::NoComponents),
        Some(p) => match lookup(p, cid) {
            None => Err(RenderError::ComponentNotFound(cid)),
            Some(c) => match c.statics {
                ComponentStaticsM::Inline(_) => Ok(c),
                ComponentStaticsM::ComponentRef(next) => if steps == 0 {
                    Err(RenderError::ComponentCycle(next))
                } else {
                    resolve_chain(pool, next, (steps - 1) as nat)
                },
            },
        },
    }
}

/// `st[0]`, then for each slot `i < n` the rendered child under key `i`
/// followed by `st[i + 1]`. A child's cousin statics come from the child under
/// the same key in `sibling` when it is given, else they are `cousin`.
pub open spec fn slots(
    kids: Seq<(usize, ChildM)>,
    st: Strs,
    cousin: Option<Strs>,
    sibling: Option<Seq<(usize, ChildM)>>,
    pool: Option<PoolM>,
    tmpl: Option<TemplatesM>,
    fuel: nat,
    n: nat,
) -> Result<Seq<char>, RenderError>
    decreases fuel, kids, n,
{
    if n == 0 {
        Ok(st[0])
    } else {
        match slots(kids, st, cousin, sibling, pool, tmpl, fuel, (n - 1) as nat) {
            Err(e) => Err(e),
            Ok(prefix) => {
                let k = (n - 1) as usize;
                let p = key_pos(kids, k);
                if p < 0 {
                    Err(RenderError::ArityMismatch)
                } else {
                    let cs = match sibling {
                        None => Ok(cousin),
                        Some(sk) => match lookup(sk, k) {
                            None => Err(RenderError::ArityMismatch),
                            Some(cc) => Ok(child_statics_m(cc)),
                        },
                    };
                    match cs {
                        Err(e) => Err(e),
                        Ok(c) => {
                            proof {
                                lemma_key_pos(kids, k);
                            }
                            match render_child(kids[p].1, pool, c, tmpl, fuel) {
                                Err(e) => Err(e),
                                Ok(s) => Ok(prefix + s + st[n as int]),
                            }
                        },
                    }
                }
            },
        }
    }
}

/// The first `n` children of a row, concatenated.
pub open spec fn plain(
    row: Seq<ChildM>,
    pool: Option<PoolM>,
    tmpl: Option<TemplatesM>,
    fuel: nat,
    n: nat,
) -> Result<Seq<char>, RenderError>
    decreases fuel, row, n,
{
    if n == 0 || n > row.len() {
        Ok(Seq::empty())
    } else {
        match plain(row, pool, tmpl, fuel, (n - 1) as nat) {
            Err(e) => Err(e),
            Ok(prefix) => match render_child(row[n - 1], pool, None, tmpl, fuel) {
                Err(e) => Err(e),
                Ok(s) => Ok(prefix + s),
            },
        }
    }
}

/// `st[0]`, then for each of the first `n` children of a row the rendered
/// child followed by the next static.
pub open spec fn row_slots(
    row: Seq<ChildM>,
    st: Strs,
    pool: Option<PoolM>,
    tmpl: Option<TemplatesM>,
    fuel: nat,
    n: nat,
) -> Result<Seq<char>, RenderError>
    decreases fuel, row, n,
{
    if n == 0 || n > row.len() {
        Ok(st[0])
    } else {
        match row_slots(row, st, pool, tmpl, fuel, (n - 1) as nat) {
            Err(e) => Err(e),
            Ok(prefix) => match render_child(row[n - 1], pool, None, tmpl, fuel) {
                Err(e) => Err(e),
                Ok(s) => Ok(prefix + s + st[n as int]),
            },
        }
    }
}

/// The first `m` rows of a comprehension, each interleaved with `il` when it
/// is given (which must then be one longer than the row), else concatenated.
pub open spec fn rows(
    dy: Seq<Seq<ChildM>>,
    il: Option<Strs>,
    pool: Option<PoolM>,
    tmpl: Option<TemplatesM>,
    fuel: nat,
    m: nat,
) -> Result<Seq<char>, RenderError>
    decreases fuel, dy, m,
{
    if m == 0 || m > dy.len() {
        Ok(Seq::empty())
    } else {
        match rows(dy, il, pool, tmpl, fuel, (m - 1) as nat) {
            Err(e) => Err(e),
            Ok(prefix) => {
                let r = dy[m - 1];
                let cur = match il {
                    None => plain(r, pool, tmpl, fuel, r.len()),
                    Some(s) => if s.len() == r.len() + 1 {
                        row_slots(r, s, pool, tmpl, fuel, r.len())
                    } else {
                        Err(RenderError::ArityMismatch)
                    },
                };
                match cur {
                    Err(e) => Err(e),
                    Ok(t) => Ok(prefix + t),
                }
            },
        }
    }
}

pub open spec fn render_fragment(
    f: FragmentM,
    pool: Option<PoolM>,
    cousin: Option<Strs>,
    tmpl: Option<TemplatesM>,
    fuel: nat,
) -> Result<Seq<char>, RenderError>
    decreases fuel, f, 0nat,
{
    match f {
        FragmentM::Regular { children, statics } => match statics {
            StaticsM::Inline(st) => if st.len() == children.len() + 1 {
                slots(children, st, cousin, None, pool, tmpl, fuel, (st.len() - 1) as nat)
            } else {
                Err(RenderError::ArityMismatch)
            },
            StaticsM::TemplateRef(_) => Err(RenderError::UnexpectedTemplateRef),
        },
        FragmentM::Comprehension { dynamics, statics, templates } => {
            let t = scope_templates(tmpl, templates);
            match (statics, cousin) {
                (None, None) => rows(dynamics, None, pool, t, fuel, dynamics.len()),
                (None, Some(s)) => rows(dynamics, Some(s), pool, t, fuel, dynamics.len()),
                (Some(StaticsM::Inline(s)), None) => rows(
                    dynamics,
                    Some(s),
                    pool,
                    t,
                    fuel,
                    dynamics.len(),
                ),
                (Some(StaticsM::TemplateRef(id)), None) => match t {
                    None => Err(RenderError::NoTemplates),
                    Some(tt) => match lookup(tt, id) {
                        None => Err(RenderError::TemplateNotFound(id)),
                        Some(s) => rows(dynamics, Some(s), pool, t, fuel, dynamics.len()),
                    },
                },
                (Some(_), Some(_)) => Err(RenderError::StaticsConflict),
            }
        },
    }
}

pub open spec fn render_child(
    c: ChildM,
    pool: Option<PoolM>,
    cousin: Option<Strs>,
    tmpl: Option<TemplatesM>,
    fuel: nat,
) -> Result<Seq<char>, RenderError>
    decreases fuel, c, 0nat,
{
    match c {
        ChildM::Fragment(f) => render_fragment(f, pool, cousin, tmpl, fuel),
        ChildM::ComponentID(cid) => match pool {
            None => Err(RenderError::NoComponents),
            Some(p) => match lookup(p, cid) {
                None => Err(RenderError::ComponentNotFound(cid)),
                Some(comp) => if fuel == 0 {
                    Err(RenderError::ComponentCycle(cid))
                } else {
                    render_component(comp, pool, (fuel - 1) as nat)
                },
            },
        },
        ChildM::Text(s) => Ok(s),
    }
}

/// A component with inline statics interleaves them with its children; one
/// with a reference interleaves the statics found at the end of the chain,
/// and each child takes as cousin statics those of the child under the same
/// key in the component that owns them.
pub open spec fn render_component(comp: ComponentM, pool: Option<PoolM>, fuel: nat) -> Result<
    Seq<char>,
    RenderError,
>
    decreases fuel, comp.children, comp.children.len() + 1,
{
    match comp.statics {
        ComponentStaticsM::Inline(st) => if st.len() == comp.children.len() + 1 {
            slots(comp.children, st, None, None, pool, None, fuel, (st.len() - 1) as nat)
        } else {
            Err(RenderError::ArityMismatch)
        },
        ComponentStaticsM::ComponentRef(cid) => match resolve_chain(pool, cid, pool_fuel(pool)) {
            Err(e) => Err(e),
            Ok(owner) => match owner.statics {
                ComponentStaticsM::Inline(st) => if st.len() == comp.children.len() + 1 {
                    slots(
                        comp.children,
                        st,
                        None,
                        Some(owner.children),
                        pool,
                        None,
                        fuel,
                        (st.len() - 1) as nat,
                    )
                } else {
                    Err(RenderError::ArityMismatch)
                },
                ComponentStaticsM::ComponentRef(_) => Err(RenderError::ComponentNotFound(cid)),
            },
        },
    }
}

} // verus!

verus! {

pub open spec fn opt_kids_m(o: Option<&Children>) -> Option<Seq<(usize, ChildM)>> {
    match o {
        Some(v) => Some(kids_m(v@)),
        None => None,
    }
}

pub open spec fn opt_il_m(o: Option<&Vec<String>>) -> Option<Strs> {
    match o {
        Some(v) => Some(strs_m(v@)),
        None => None,
    }
}

proof fn lemma_kids_keys(s: Seq<(usize, Child)>, k: usize)
    ensures
        key_pos(kids_m(s), k) == key_pos(s, k),
{
    lemma_key_pos_same_keys(kids_m(s), s, k);
}

proof fn lemma_pool_keys(s: Seq<(i32, Component)>, k: i32)
    ensures
        key_pos(pool_m(s), k) == key_pos(s, k),
{
    lemma_key_pos_same_keys(pool_m(s), s, k);
}

proof fn lemma_templates_keys(s: Seq<(i32, Vec<String>)>, k: i32)
    ensures
        key_pos(templates_m(s), k) == key_pos(s, k),
{
    lemma_key_pos_same_keys(templates_m(s), s, k);
}

proof fn lemma_slots_err(
    kids: Seq<(usize, ChildM)>,
    st: Strs,
    cousin: Option<Strs>,
    sibling: Option<Seq<(usize, ChildM)>>,
    pool: Option<PoolM>,
    tmpl: Option<TemplatesM>,
    fuel: nat,
    j: nat,
    m: nat,
)
    requires
        j <= m,
        slots(kids, st, cousin, sibling, pool, tmpl, fuel, j) is Err,
    ensures
        slots(kids, st, cousin, sibling, pool, tmpl, fuel, m) == slots(
            kids,
            st,
            cousin,
            sibling,
            pool,
            tmpl,
            fuel,
            j,
        ),
    decreases m - j,
{
    if j < m {
        lemma_slots_err(kids, st, cousin, sibling, pool, tmpl, fuel, j, (m - 1) as nat);
    }
}

proof fn lemma_plain_err(
    row: Seq<ChildM>,
    pool: Option<PoolM>,
    tmpl: Option<TemplatesM>,
    fuel: nat,
    j: nat,
    m: nat,
)
    requires
        j <= m <= row.len(),
        plain(row, pool, tmpl, fuel, j) is Err,
    ensures
        plain(row, pool, tmpl, fuel, m) == plain(row, pool, tmpl, fuel, j),
    decreases m - j,
{
    if j < m {
        lemma_plain_err(row, pool, tmpl, fuel, j, (m - 1) as nat);
    }
}

proof fn lemma_row_slots_err(
    row: Seq<ChildM>,
    st: Strs,
    pool: Option<PoolM>,
    tmpl: Option<TemplatesM>,
    fuel: nat,
    j: nat,
    m: nat,
)
    requires
        j <= m <= row.len(),
        row_slots(row, st, pool, tmpl, fuel, j) is Err,
    ensures
        row_slots(row, st, pool, tmpl, fuel, m) == row_slots(row, st, pool, tmpl, fuel, j),
    decreases m - j,
{
    if j < m {
        lemma_row_slots_err(row, st, pool, tmpl, fuel, j, (m - 1) as nat);
    }
}

proof fn lemma_rows_err(
    dy: Seq<Seq<ChildM>>,
    il: Option<Strs>,
    pool: Option<PoolM>,
    tmpl: Option<TemplatesM>,
    fuel: nat,
    j: nat,
    m: nat,
)
    requires
        j <= m <= dy.len(),
        rows(dy, il, pool, tmpl, fuel, j) is Err,
    ensures
        rows(dy, il, pool, tmpl, fuel, m) == rows(dy, il, pool, tmpl, fuel, j),
    decreases m - j,
{
    if j < m {
        lemma_rows_err(dy, il, pool, tmpl, fuel, j, (m - 1) as nat);
    }
}

fn scope_templates_exec(parent: Templates, own: &Templates) -> (r: Templates)
    ensures
        opt_templates_m(r) == scope_templates(opt_templates_m(parent), opt_templates_m(*own)),
{
    match own {
        None => parent,
        Some(c) => {
            let mut r = copy_templates(c);
            match parent {
                None => Some(r),
                Some(p) => {
                    let mut p = p;
                    let ghost r0 = r@;
                    let ghost pv = p@;
                    r.append(&mut p);
                    assert(templates_m(r@) =~= templates_m(r0) + templates_m(pv));
                    Some(r)
                },
            }
        },
    }
}

/// Interleaves `st` with the children under keys `0 .. st.len() - 1`.
fn render_slots(
    children: &Children,
    st: &Vec<String>,
    cousin: &Option<Vec<String>>,
    sibling: Option<&Children>,
    components: &Option<Components>,
    templates: &Templates,
    fuel: u128,
) -> (r: Result<String, RenderError>)
    requires
        st@.len() == children@.len() + 1,
    ensures
        text_of(r) == slots(
            kids_m(children@),
            strs_m(st@),
            opt_strs_m(*cousin),
            opt_kids_m(sibling),
            opt_pool_m(*components),
            opt_templates_m(*templates),
            fuel as nat,
            (st@.len() - 1) as nat,
        ),
    decreases fuel, *children, 0nat,
{
    let ghost kids = kids_m(children@);
    let ghost sm = strs_m(st@);
    let ghost cm = opt_strs_m(*cousin);
    let ghost sib = opt_kids_m(sibling);
    let ghost pm = opt_pool_m(*components);
    let ghost tm = opt_templates_m(*templates);
    let n = st.len();
    let mut out: String = st[0].clone();
    let mut i: usize = 1;
    while i < n
        invariant
            1 <= i <= n,
            n == st@.len(),
            n == children@.len() + 1,
            kids == kids_m(children@),
            sm == strs_m(st@),
            cm == opt_strs_m(*cousin),
            sib == opt_kids_m(sibling),
            pm == opt_pool_m(*components),
            tm == opt_templates_m(*templates),
            slots(kids, sm, cm, sib, pm, tm, fuel as nat, (i - 1) as nat) == Ok::<
                Seq<char>,
                RenderError,
            >(out@),
        decreases n - i,
    {
        let k: usize = i - 1;
        proof {
            lemma_kids_keys(children@, k);
            lemma_key_pos(children@, k);
        }
        let p = match find_index(children, k) {
            None => {
                proof {
                    lemma_slots_err(kids, sm, cm, sib, pm, tm, fuel as nat, i as nat, (n - 1) as nat);
                }
                return Err(RenderError::ArityMismatch);
            },
            Some(p) => p,
        };
        let cs: Option<Vec<String>> = match sibling {
            None => match cousin {
                Some(c) => Some(copy_strs(c)),
                None => None,
            },
            Some(sk) => {
                proof {
                    lemma_kids_keys(sk@, k);
                    lemma_key_pos(sk@, k);
                }
                match find_index(sk, k) {
                    None => {
                        proof {
                            lemma_slots_err(kids, sm, cm, sib, pm, tm, fuel as nat, i as nat, (n - 1) as nat);
                        }
                        return Err(RenderError::ArityMismatch);
                    },
                    Some(q) => sk[q].1.statics(),
                }
            },
        };
        let val = match children[p].1.render_fuel(components, cs, copy_opt_templates(templates), fuel) {
            Err(e) => {
                proof {
                    lemma_slots_err(kids, sm, cm, sib, pm, tm, fuel as nat, i as nat, (n - 1) as nat);
                }
                return Err(e);
            },
            Ok(v) => v,
        };
        out.append(val.as_str());
        out.append(st[i].as_str());
        i = i + 1;
    }
    Ok(out)
}

/// Renders each row of a comprehension, interleaved with `il` when given.
fn render_rows(
    dynamics: &Dynamics,
    il: Option<&Vec<String>>,
    components: &Option<Components>,
    templates: &Templates,
    fuel: u128,
) -> (r: Result<String, RenderError>)
    ensures
        text_of(r) == rows(
            rows_m(dynamics@),
            opt_il_m(il),
            opt_pool_m(*components),
            opt_templates_m(*templates),
            fuel as nat,
            dynamics@.len(),
        ),
    decreases fuel, *dynamics, 0nat,
{
    let ghost dy = rows_m(dynamics@);
    let ghost ilm = opt_il_m(il);
    let ghost pm = opt_pool_m(*components);
    let ghost tm = opt_templates_m(*templates);
    let mut out = String::new();
    let mut m: usize = 0;
    while m < dynamics.len()
        invariant
            m <= dynamics@.len(),
            dy == rows_m(dynamics@),
            ilm == opt_il_m(il),
            pm == opt_pool_m(*components),
            tm == opt_templates_m(*templates),
            rows(dy, ilm, pm, tm, fuel as nat, m as nat) == Ok::<Seq<char>, RenderError>(out@),
        decreases dynamics@.len() - m,
    {
        let row = &dynamics[m];
        let ghost rm = row_m(row@);
        assert(dy[m as int] == rm);
        let mut line = String::new();
        match il {
            None => {
                let mut j: usize = 0;
                while j < row.len()
                    invariant
                        j <= row@.len(),
                        rm == row_m(row@),
                        row == &dynamics@[m as int],
                        m < dynamics@.len(),
                        pm == opt_pool_m(*components),
                        tm == opt_templates_m(*templates),
                        dy == rows_m(dynamics@),
                        dy[m as int] == rm,
                        dy.len() == dynamics@.len(),
                        ilm == opt_il_m(il),
                        ilm == None::<Strs>,
                        rows(dy, ilm, pm, tm, fuel as nat, m as nat) == Ok::<Seq<char>, RenderError>(out@),
                        plain(rm, pm, tm, fuel as nat, j as nat) == Ok::<Seq<char>, RenderError>(
                            line@,
                        ),
                    decreases row@.len() - j,
                {
                    let val = match row[j].render_fuel(
                        components,
                        None,
                        copy_opt_templates(templates),
                        fuel,
                    ) {
                        Err(e) => {
                            proof {
                                lemma_plain_err(rm, pm, tm, fuel as nat, (j + 1) as nat, rm.len());
                            }
                            proof {
                                assert(rows(dy, ilm, pm, tm, fuel as nat, (m + 1) as nat) == Err::<Seq<char>, RenderError>(e));
                                lemma_rows_err(dy, ilm, pm, tm, fuel as nat, (m + 1) as nat, dy.len());
                            }
                            return Err(e);
                        },
                        Ok(v) => v,
                    };
                    line.append(val.as_str());
                    j = j + 1;
                }
            },
            Some(s) => {
                if s.len() == 0 || s.len() - 1 != row.len() {
                    proof {
                        assert(rows(dy, ilm, pm, tm, fuel as nat, (m + 1) as nat) == Err::<Seq<char>, RenderError>(RenderError::ArityMismatch));
                        lemma_rows_err(dy, ilm, pm, tm, fuel as nat, (m + 1) as nat, dy.len());
                    }
                    return Err(RenderError::ArityMismatch);
                }
                let ghost sm = strs_m(s@);
                line = s[0].clone();
                let mut j: usize = 0;
                while j < row.len()
                    invariant
                        j <= row@.len(),
                        s@.len() == row@.len() + 1,
                        sm == strs_m(s@),
                        rm == row_m(row@),
                        row == &dynamics@[m as int],
                        m < dynamics@.len(),
                        pm == opt_pool_m(*components),
                        tm == opt_templates_m(*templates),
                        dy == rows_m(dynamics@),
                        dy[m as int] == rm,
                        dy.len() == dynamics@.len(),
                        ilm == opt_il_m(il),
                        ilm == Some(sm),
                        rows(dy, ilm, pm, tm, fuel as nat, m as nat) == Ok::<Seq<char>, RenderError>(out@),
                        row_slots(rm, sm, pm, tm, fuel as nat, j as nat) == Ok::<
                            Seq<char>,
                            RenderError,
                        >(line@),
                    decreases row@.len() - j,
                {
                    let val = match row[j].render_fuel(
                        components,
                        None,
                        copy_opt_templates(templates),
                        fuel,
                    ) {
                        Err(e) => {
                            proof {
                                lemma_row_slots_err(rm, sm, pm, tm, fuel as nat, (j + 1) as nat, rm.len());
                                assert(rows(dy, ilm, pm, tm, fuel as nat, (m + 1) as nat) == Err::<Seq<char>, RenderError>(e));
                                lemma_rows_err(dy, ilm, pm, tm, fuel as nat, (m + 1) as nat, dy.len());
                            }
                            return Err(e);
                        },
                        Ok(v) => v,
                    };
                    line.append(val.as_str());
                    line.append(s[j + 1].as_str());
                    j = j + 1;
                }
            },
        }
        out.append(line.as_str());
        m = m + 1;
    }
    Ok(out)
}

/// Index in the pool of the component whose inline statics a reference to
/// `cid` leads to.
fn resolve_owner(components: &Option<Components>, cid: i32) -> (r: Result<usize, RenderError>)
    ensures
        match r {
            Ok(i) => components is Some && i < components->0@.len() && resolve_chain(
                opt_pool_m(*components),
                cid,
                pool_fuel(opt_pool_m(*components)),
            ) == Ok::<ComponentM, RenderError>(comp_m(components->0@[i as int].1)),
            Err(e) => resolve_chain(
                opt_pool_m(*components),
                cid,
                pool_fuel(opt_pool_m(*components)),
            ) == Err::<ComponentM, RenderError>(e),
        },
{
    match components {
        None => Err(RenderError::NoComponents),
        Some(pool) => {
            let ghost pm = opt_pool_m(*components);
            let mut cur = cid;
            let mut steps: usize = pool.len();
            loop
                invariant
                    steps <= pool@.len(),
                    pm == opt_pool_m(*components),
                    *components == Some(*pool),
                    resolve_chain(pm, cid, pool@.len()) == resolve_chain(pm, cur, steps as nat),
                decreases steps,
            {
                proof {
                    lemma_pool_keys(pool@, cur);
                }
                match find_id(pool, cur) {
                    None => {
                        return Err(RenderError::ComponentNotFound(cur));
                    },
                    Some(i) => match &pool[i].1.statics {
                        ComponentStatics::Statics(_) => {
                            return Ok(i);
                        },
                        ComponentStatics::ComponentRef(next) => {
                            if steps == 0 {
                                return Err(RenderError::ComponentCycle(*next));
                            }
                            cur = *next;
                            steps = steps - 1;
                        },
                    },
                }
            }
        },
    }
}

impl Child {
    /// Inline statics of a fragment child, for a cousin to borrow.
    pub fn statics(&self) -> (r: Option<Vec<String>>)
        ensures
            opt_strs_m(r) == child_statics_m(self@),
    {
        match self {
            Child::Fragment(Fragment::Regular { statics: Statics::Statics(s), .. }) => Some(
                copy_strs(s),
            ),
            Child::Fragment(
                Fragment::Comprehension { statics: Some(Statics::Statics(s)), .. },
            ) => Some(copy_strs(s)),
            _ => None,
        }
    }

    fn render_fuel(
        &self,
        components: &Option<Components>,
        statics: Option<Vec<String>>,
        templates: Templates,
        fuel: u128,
    ) -> (r: Result<String, RenderError>)
        ensures
            text_of(r) == render_child(
                self@,
                opt_pool_m(*components),
                opt_strs_m(statics),
                opt_templates_m(templates),
                fuel as nat,
            ),
        decreases fuel, *self, 0nat,
    {
        match self {
            Child::Fragment(f) => f.render_fuel(components, statics, templates, fuel),
            Child::ComponentID(cid) => match components {
                None => Err(RenderError::NoComponents),
                Some(pool) => {
                    proof {
                        lemma_pool_keys(pool@, *cid);
                    }
                    match find_id(pool, *cid) {
                        None => Err(RenderError::ComponentNotFound(*cid)),
                        Some(i) => {
                            if fuel == 0 {
                                Err(RenderError::ComponentCycle(*cid))
                            } else {
                                pool[i].1.render_fuel(components, fuel - 1)
                            }
                        },
                    }
                },
            },
            Child::String(s) => Ok(s.clone()),
        }
    }

    /// Renders this child against the component pool, with the cousin statics
    /// and templates handed down from above.
    pub fn render(
        &self,
        components: &Option<Components>,
        statics: Option<Vec<String>>,
        templates: Templates,
    ) -> (r: Result<String, RenderError>)
        ensures
            text_of(r) == render_child(
                self@,
                opt_pool_m(*components),
                opt_strs_m(statics),
                opt_templates_m(templates),
                pool_fuel(opt_pool_m(*components)) + 1,
            ),
            *self matches Child::ComponentID(cid) ==> (*components matches Some(p) ==> (lookup(
                pool_m(p@),
                cid,
            ) matches Some(c) ==> text_of(r) == render_component(
                c,
                opt_pool_m(*components),
                pool_fuel(opt_pool_m(*components)),
            ))),
    {
        let fuel: u128 = match components {
            Some(v) => v.len() as u128 + 1,
            None => 1,
        };
        self.render_fuel(components, statics, templates, fuel)
    }
}

impl Fragment {
    fn render_fuel(
        &self,
        components: &Option<Components>,
        cousin_statics: Option<Vec<String>>,
        parent_templates: Templates,
        fuel: u128,
    ) -> (r: Result<String, RenderError>)
        ensures
            text_of(r) == render_fragment(
                self@,
                opt_pool_m(*components),
                opt_strs_m(cousin_statics),
                opt_templates_m(parent_templates),
                fuel as nat,
            ),
        decreases fuel, *self, 0nat,
    {
        match self {
            Fragment::Regular { children, statics } => match statics {
                Statics::Statics(st) => {
                    if st.len() == 0 || st.len() - 1 != children.len() {
                        return Err(RenderError::ArityMismatch);
                    }
                    render_slots(
                        children,
                        st,
                        &cousin_statics,
                        None,
                        components,
                        &parent_templates,
                        fuel,
                    )
                },
                Statics::TemplateRef(_) => Err(RenderError::UnexpectedTemplateRef),
            },
            Fragment::Comprehension { dynamics, statics, templates } => {
                let t = scope_templates_exec(parent_templates, templates);
                match (statics, cousin_statics) {
                    (None, None) => render_rows(dynamics, None, components, &t, fuel),
                    (None, Some(s)) => render_rows(dynamics, Some(&s), components, &t, fuel),
                    (Some(Statics::Statics(s)), None) => render_rows(
                        dynamics,
                        Some(s),
                        components,
                        &t,
                        fuel,
                    ),
                    (Some(Statics::TemplateRef(id)), None) => match &t {
                        None => Err(RenderError::NoTemplates),
                        Some(tt) => {
                            proof {
                                lemma_templates_keys(tt@, *id);
                            }
                            match find_id(tt, *id) {
                                None => Err(RenderError::TemplateNotFound(*id)),
                                Some(i) => render_rows(dynamics, Some(&tt[i].1), components, &t, fuel),
                            }
                        },
                    },
                    (Some(_), Some(_)) => Err(RenderError::StaticsConflict),
                }
            },
        }
    }

    /// Renders this fragment against the component pool, with the cousin
    /// statics and templates handed down from above. A comprehension with
    /// statics of its own that is also handed cousin statics is an illegal
    /// combination: it is reported as `StaticsConflict` instead of aborting.
    pub fn render(
        &self,
        components: &Option<Components>,
        cousin_statics: Option<Vec<String>>,
        parent_templates: Templates,
    ) -> (r: Result<String, RenderError>)
        ensures
            text_of(r) == render_fragment(
                self@,
                opt_pool_m(*components),
                opt_strs_m(cousin_statics),
                opt_templates_m(parent_templates),
                pool_fuel(opt_pool_m(*components)) + 1,
            ),
    {
        let fuel: u128 = match components {
            Some(v) => v.len() as u128 + 1,
            None => 1,
        };
        self.render_fuel(components, cousin_statics, parent_templates, fuel)
    }
}

impl Component {
    fn render_fuel(&self, components: &Option<Components>, fuel: u128) -> (r: Result<
        String,
        RenderError,
    >)
        ensures
            text_of(r) == render_component(self@, opt_pool_m(*components), fuel as nat),
        decreases fuel, self.children, 1nat,
    {
        match &self.statics {
            ComponentStatics::Statics(st) => {
                if st.len() == 0 || st.len() - 1 != self.children.len() {
                    return Err(RenderError::ArityMismatch);
                }
                render_slots(&self.children, st, &None, None, components, &None, fuel)
            },
            ComponentStatics::ComponentRef(cid) => {
                let i = match resolve_owner(components, *cid) {
                    Err(e) => {
                        return Err(e);
                    },
                    Ok(i) => i,
                };
                match components {
                    None => Err(RenderError::NoComponents),
                    Some(pool) => {
                        let owner = &pool[i].1;
                        match &owner.statics {
                            ComponentStatics::Statics(st) => {
                                if st.len() == 0 || st.len() - 1 != self.children.len() {
                                    return Err(RenderError::ArityMismatch);
                                }
                                render_slots(
                                    &self.children,
                                    st,
                                    &None,
                                    Some(&owner.children),
                                    components,
                                    &None,
                                    fuel,
                                )
                            },
                            ComponentStatics::ComponentRef(_) => Err(
                                RenderError::ComponentNotFound(*cid),
                            ),
                        }
                    },
                }
            },
        }
    }

    /// Renders this component against the pool it lives in.
    pub fn to_string_with_components(&self, components: &Option<Components>) -> (r: Result<
        String,
        RenderError,
    >)
        ensures
            text_of(r) == render_component(
                self@,
                opt_pool_m(*components),
                pool_fuel(opt_pool_m(*components)),
            ),
    {
        let fuel: u128 = match components {
            Some(v) => v.len() as u128,
            None => 0,
        };
        self.render_fuel(components, fuel)
    }
}

pub open spec fn render_root(r: RootM) -> Result<Seq<char>, RenderError> {
    render_fragment(r.fragment, r.components, None, None, pool_fuel(r.components) + 1)
}

impl Root {
    /// The document this tree stands for.
    pub fn render(&self) -> (r: Result<String, RenderError>)
        ensures
            text_of(r) == render_root(self@),
    {
        self.fragment.render(&self.components, None, None)
    }
}

} // verus!
