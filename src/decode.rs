// Reading diffs from JSON values, by the keys each object holds.
use vstd::prelude::*;
use crate::assoc::{key_pos, lemma_key_pos};
use vstd::std_specs::vec::axiom_vec_index_decreases;
use crate::merge::{new_kids, new_kids_exec};
use crate::tree::{
    ChildDiff, ChildDiffM, ComponentDiff, ComponentDiffM, ComponentStatics, ComponentStaticsM,
    FragmentDiff, FragmentDiffM, FragmentM, RootDiff, RootDiffM, Statics, StaticsM, Strs,
    TemplatesM, child_diff_m, comp_diff_m, comp_diffs_m, kid_diffs_m, row_diff_m, row_diffs_m,
    statics_m, cstatics_m, strs_m, templates_m,
};

verus! {

/// A JSON value as the decoder reads it. Numbers that are not integers in
/// the 64-bit range are kept only as `Real`, since no position of the wire
/// format takes one.
#[derive(Debug, PartialEq)]
pub enum Json {
    Null,
    Bool(bool),
    Int(i64),
    Real,
    Str(String),
    Array(Vec<Json>),
    Object(Vec<(String, Json)>),
}

#[derive(Debug, Clone, Copy, PartialEq, Eq)]
pub enum DecodeError {
    /// A fragment, component or root position holds something else than an object.
    NotAnObject,
    /// An object key that the position does not define.
    UnknownKey,
    /// A value of the wrong shape under a known key.
    BadValue,
}

// ---------------------------------------------------------------------------
// Keys

pub open spec fn is_digit(c: char) -> bool {
    '0' <= c && c <= '9'
}

pub open spec fn digit_value(c: char) -> nat {
    (c as u32 - '0' as u32) as nat
}

/// The value of a string of decimal digits.
pub open spec fn dec_val(s: Seq<char>) -> nat
    decreases s.len(),
{
    if s.len() == 0 {
        0
    } else {
        dec_val(s.drop_last()) * 10 + digit_value(s.last())
    }
}

/// Digits only, at least one, and no leading zero.
pub open spec fn canonical(s: Seq<char>) -> bool {
    &&& s.len() > 0
    &&& forall|i: int| 0 <= i < s.len() ==> is_digit(#[trigger] s[i])
    &&& (s[0] == '0' ==> s.len() == 1)
}

/// The number a key spells in canonical decimal, within the 32-bit signed range.
pub open spec fn key_num(s: Seq<char>) -> Option<int> {
    if s.len() > 0 && s[0] == '-' {
        let t = s.drop_first();
        if canonical(t) && t[0] != '0' && dec_val(t) <= 2147483648 {
            Some(-(dec_val(t) as int))
        } else {
            None
        }
    } else if canonical(s) && dec_val(s) <= 2147483647 {
        Some(dec_val(s) as int)
    } else {
        None
    }
}

pub open spec fn capped(v: nat) -> nat {
    if v >= 4294967296 {
        4294967296
    } else {
        v
    }
}

/// Reads a key as a number; see `key_num`.
pub fn parse_key(s: &String) -> (r: Option<i64>)
    ensures
        match r {
            Some(v) => key_num(s@) == Some(v as int),
            None => key_num(s@) is None,
        },
{
    let n = s.as_str().unicode_len();
    if n == 0 {
        return None;
    }
    let neg = s.as_str().get_char(0) == '-';
    let start: usize = if neg {
        1
    } else {
        0
    };
    if start >= n {
        return None;
    }
    let ghost t = s@.subrange(start as int, n as int);
    assert(neg ==> t =~= s@.drop_first());
    assert(!neg ==> t =~= s@);
    let first = s.as_str().get_char(start);
    assert(t[0] == first);
    if first == '0' && (neg || n - start > 1) {
        return None;
    }
    let mut acc: u64 = 0;
    let mut i: usize = start;
    while i < n
        invariant
            start <= i <= n,
            n == s@.len(),
            t == s@.subrange(start as int, n as int),
            acc as nat == capped(dec_val(s@.subrange(start as int, i as int))),
            forall|j: int| start <= j < i ==> is_digit(#[trigger] s@[j]),
            neg ==> t =~= s@.drop_first(),
            !neg ==> t =~= s@,
            neg <==> s@[0] == '-',
            start == (if neg { 1usize } else { 0usize }),
        decreases n - i,
    {
        let c = s.as_str().get_char(i);
        if !('0' <= c && c <= '9') {
            assert(t[i - start] == s@[i as int]);
            assert(!is_digit(t[i - start]));
            return None;
        }
        let d: u64 = (c as u32 - '0' as u32) as u64;
        let ghost pre = s@.subrange(start as int, i as int);
        let ghost next = s@.subrange(start as int, i + 1);
        assert(next.drop_last() =~= pre);
        assert(dec_val(next) == dec_val(pre) * 10 + d);
        if acc >= 4294967296 {
            assert(dec_val(next) >= 4294967296) by (nonlinear_arith)
                requires
                    dec_val(pre) >= 4294967296,
                    dec_val(next) == dec_val(pre) * 10 + d,
            ;
            acc = 4294967296;
        } else {
            let v = acc * 10 + d;
            if v >= 4294967296 {
                acc = 4294967296;
            } else {
                acc = v;
            }
        }
        i = i + 1;
    }
    assert(s@.subrange(start as int, n as int) =~= t);
    assert(forall|j: int| 0 <= j < t.len() ==> t[j] == s@[j + start]);
    if neg {
        if acc > 2147483648 {
            None
        } else {
            Some(-(acc as i64))
        }
    } else {
        if acc > 2147483647 {
            None
        } else {
            Some(acc as i64)
        }
    }
}

// ---------------------------------------------------------------------------
// Shapes

pub open spec fn fields_m(e: Seq<(String, Json)>) -> Seq<(Seq<char>, Json)> {
    Seq::new(e.len(), |i: int| (e[i].0@, e[i].1))
}

/// Position of the first entry under key `k`, or -1.
pub open spec fn field_pos(e: Seq<(String, Json)>, k: Seq<char>) -> int {
    key_pos(fields_m(e), k)
}

/// Keys with a meaning of their own: statics, dynamics, templates, and at
/// the root the components.
pub open spec fn reserved(k: Seq<char>, root: bool) -> bool {
    k == "s"@ || k == "d"@ || k == "p"@ || (root && k == "c"@)
}

pub open spec fn in_i32(i: i64) -> bool {
    i32::MIN <= i <= i32::MAX
}

/// An array of strings.
pub open spec fn dec_strs(j: Json) -> Option<Strs> {
    match j {
        Json::Array(v) => if forall|i: int| 0 <= i < v@.len() ==> v@[i] is Str {
            Some(Seq::new(v@.len(), |i: int| v@[i]->Str_0@))
        } else {
            None
        },
        _ => None,
    }
}

pub open spec fn dec_statics(j: Json) -> Result<StaticsM, DecodeError> {
    match j {
        Json::Int(i) => if in_i32(i) {
            Ok(StaticsM::TemplateRef(i as i32))
        } else {
            Err(DecodeError::BadValue)
        },
        _ => match dec_strs(j) {
            Some(s) => Ok(StaticsM::Inline(s)),
            None => Err(DecodeError::BadValue),
        },
    }
}

pub open spec fn dec_cstatics(j: Json) -> Result<ComponentStaticsM, DecodeError> {
    match j {
        Json::Int(i) => if in_i32(i) {
            Ok(ComponentStaticsM::ComponentRef(i as i32))
        } else {
            Err(DecodeError::BadValue)
        },
        _ => match dec_strs(j) {
            Some(s) => Ok(ComponentStaticsM::Inline(s)),
            None => Err(DecodeError::BadValue),
        },
    }
}

/// The first `n` entries of a template dictionary.
pub open spec fn dec_template_entries(e: Seq<(String, Json)>, n: nat) -> Result<TemplatesM, DecodeError>
    decreases n,
{
    if n == 0 || n > e.len() {
        Ok(Seq::empty())
    } else {
        match dec_template_entries(e, (n - 1) as nat) {
            Err(x) => Err(x),
            Ok(acc) => match key_num(e[n - 1].0@) {
                None => Err(DecodeError::UnknownKey),
                Some(v) => match dec_strs(e[n - 1].1) {
                    None => Err(DecodeError::BadValue),
                    Some(s) => Ok(acc.push((v as i32, s))),
                },
            },
        }
    }
}

pub open spec fn dec_templates(j: Json) -> Result<TemplatesM, DecodeError> {
    match j {
        Json::Object(e) => dec_template_entries(e@, e@.len()),
        _ => Err(DecodeError::BadValue),
    }
}

/// A child slot of an update: text, a component id, or a nested fragment.
pub open spec fn dec_child_diff(j: Json) -> Result<ChildDiffM, DecodeError>
    decreases j, 0nat,
{
    match j {
        Json::Str(s) => Ok(ChildDiffM::Text(s@)),
        Json::Int(i) => if in_i32(i) {
            Ok(ChildDiffM::ComponentID(i as i32))
        } else {
            Err(DecodeError::BadValue)
        },
        Json::Object(e) => match dec_frag_entries(e@, false) {
            Err(x) => Err(x),
            Ok(f) => Ok(ChildDiffM::Fragment(f)),
        },
        _ => Err(DecodeError::BadValue),
    }
}

/// The children among the first `n` entries: reserved keys are passed over,
/// every other key must be a slot index.
pub open spec fn dec_kid_diffs(e: Seq<(String, Json)>, root: bool, n: nat) -> Result<
    Seq<(usize, ChildDiffM)>,
    DecodeError,
>
    decreases e, n,
{
    if n == 0 || n > e.len() {
        Ok(Seq::empty())
    } else {
        match dec_kid_diffs(e, root, (n - 1) as nat) {
            Err(x) => Err(x),
            Ok(acc) => if reserved(e[n - 1].0@, root) {
                Ok(acc)
            } else {
                match key_num(e[n - 1].0@) {
                    Some(v) => if v >= 0 {
                        match dec_child_diff(e[n - 1].1) {
                            Err(x) => Err(x),
                            Ok(c) => Ok(acc.push((v as usize, c))),
                        }
                    } else {
                        Err(DecodeError::UnknownKey)
                    },
                    None => Err(DecodeError::UnknownKey),
                }
            },
        }
    }
}

/// The first `m` cells of a row.
pub open spec fn dec_cells(c: Seq<Json>, m: nat) -> Result<Seq<ChildDiffM>, DecodeError>
    decreases c, m,
{
    if m == 0 || m > c.len() {
        Ok(Seq::empty())
    } else {
        match dec_cells(c, (m - 1) as nat) {
            Err(x) => Err(x),
            Ok(acc) => match dec_child_diff(c[m - 1]) {
                Err(x) => Err(x),
                Ok(d) => Ok(acc.push(d)),
            },
        }
    }
}

pub open spec fn dec_row(j: Json) -> Result<Seq<ChildDiffM>, DecodeError>
    decreases j, 0nat,
{
    match j {
        Json::Array(c) => dec_cells(c@, c@.len()),
        _ => Err(DecodeError::BadValue),
    }
}

/// The first `n` rows of a comprehension.
pub open spec fn dec_rows(v: Seq<Json>, n: nat) -> Result<Seq<Seq<ChildDiffM>>, DecodeError>
    decreases v, n,
{
    if n == 0 || n > v.len() {
        Ok(Seq::empty())
    } else {
        match dec_rows(v, (n - 1) as nat) {
            Err(x) => Err(x),
            Ok(acc) => match dec_row(v[n - 1]) {
                Err(x) => Err(x),
                Ok(r) => Ok(acc.push(r)),
            },
        }
    }
}

/// An object read as a fragment update. With `"d"` it is a comprehension,
/// and only reserved keys may stand beside it; with `"s"` (and no `"d"`) it
/// is a full regular fragment, whose children must stand on their own;
/// otherwise it updates children by index. `"p"` belongs to comprehensions.
pub open spec fn dec_frag_entries(e: Seq<(String, Json)>, root: bool) -> Result<
    FragmentDiffM,
    DecodeError,
>
    decreases e, e.len() + 1,
{
    let pd = field_pos(e, "d"@);
    let ps = field_pos(e, "s"@);
    let pp = field_pos(e, "p"@);
    if pd >= 0 {
        if !(forall|i: int| 0 <= i < e.len() ==> reserved(#[trigger] e[i].0@, root)) {
            Err(DecodeError::UnknownKey)
        } else {
            proof {
                lemma_key_pos(fields_m(e), "d"@);
            }
            match e[pd].1 {
                Json::Array(v) => match dec_rows(v@, v@.len()) {
                    Err(x) => Err(x),
                    Ok(dy) => {
                        let st = if ps >= 0 {
                            match dec_statics(e[ps].1) {
                                Err(x) => Err(x),
                                Ok(s) => Ok(Some(s)),
                            }
                        } else {
                            Ok(None)
                        };
                        match st {
                            Err(x) => Err(x),
                            Ok(st) => {
                                let tp = if pp >= 0 {
                                    match dec_templates(e[pp].1) {
                                        Err(x) => Err(x),
                                        Ok(t) => Ok(Some(t)),
                                    }
                                } else {
                                    Ok(None)
                                };
                                match tp {
                                    Err(x) => Err(x),
                                    Ok(tp) => Ok(
                                        FragmentDiffM::UpdateComprehension {
                                            dynamics: dy,
                                            templates: tp,
                                            statics: st,
                                        },
                                    ),
                                }
                            },
                        }
                    },
                },
                _ => Err(DecodeError::BadValue),
            }
        }
    } else if pp >= 0 {
        Err(DecodeError::UnknownKey)
    } else if ps >= 0 {
        match dec_kid_diffs(e, root, e.len()) {
            Err(x) => Err(x),
            Ok(kd) => match dec_statics(e[ps].1) {
                Err(x) => Err(x),
                Ok(st) => match new_kids(kd, kd.len()) {
                    Err(_) => Err(DecodeError::BadValue),
                    Ok(kids) => Ok(
                        FragmentDiffM::ReplaceCurrent(
                            FragmentM::Regular { children: kids, statics: st },
                        ),
                    ),
                },
            },
        }
    } else {
        match dec_kid_diffs(e, root, e.len()) {
            Err(x) => Err(x),
            Ok(kd) => Ok(FragmentDiffM::UpdateRegular { children: kd }),
        }
    }
}

pub open spec fn dec_fragment_diff(j: Json) -> Result<FragmentDiffM, DecodeError> {
    match j {
        Json::Object(e) => dec_frag_entries(e@, false),
        _ => Err(DecodeError::NotAnObject),
    }
}

/// A component: with `"s"` a full description, else an update of children.
pub open spec fn dec_component(j: Json) -> Result<ComponentDiffM, DecodeError> {
    match j {
        Json::Object(e) => if field_pos(e@, "d"@) >= 0 || field_pos(e@, "p"@) >= 0 {
            Err(DecodeError::UnknownKey)
        } else {
            match dec_kid_diffs(e@, false, e@.len()) {
                Err(x) => Err(x),
                Ok(kd) => {
                    let ps = field_pos(e@, "s"@);
                    if ps >= 0 {
                        match dec_cstatics(e@[ps].1) {
                            Err(x) => Err(x),
                            Ok(st) => match new_kids(kd, kd.len()) {
                                Err(_) => Err(DecodeError::BadValue),
                                Ok(kids) => Ok(
                                    ComponentDiffM::ReplaceCurrent { children: kids, statics: st },
                                ),
                            },
                        }
                    } else {
                        Ok(ComponentDiffM::UpdateRegular { children: kd })
                    }
                },
            }
        },
        _ => Err(DecodeError::NotAnObject),
    }
}

/// The first `n` entries of the components object, keyed by component id.
pub open spec fn dec_component_entries(e: Seq<(String, Json)>, n: nat) -> Result<
    Seq<(i32, ComponentDiffM)>,
    DecodeError,
>
    decreases n,
{
    if n == 0 || n > e.len() {
        Ok(Seq::empty())
    } else {
        match dec_component_entries(e, (n - 1) as nat) {
            Err(x) => Err(x),
            Ok(acc) => match key_num(e[n - 1].0@) {
                None => Err(DecodeError::UnknownKey),
                Some(v) => match dec_component(e[n - 1].1) {
                    Err(x) => Err(x),
                    Ok(c) => Ok(acc.push((v as i32, c))),
                },
            },
        }
    }
}

pub open spec fn dec_components(j: Json) -> Result<Seq<(i32, ComponentDiffM)>, DecodeError> {
    match j {
        Json::Object(e) => dec_component_entries(e@, e@.len()),
        _ => Err(DecodeError::BadValue),
    }
}

/// A whole update: the root fragment, and the components under `"c"`.
pub open spec fn dec_root(j: Json) -> Result<RootDiffM, DecodeError> {
    match j {
        Json::Object(e) => {
            let pc = field_pos(e@, "c"@);
            let comps = if pc >= 0 {
                match dec_components(e@[pc].1) {
                    Err(x) => Err(x),
                    Ok(c) => Ok(Some(c)),
                }
            } else {
                Ok(None)
            };
            match comps {
                Err(x) => Err(x),
                Ok(c) => match dec_frag_entries(e@, true) {
                    Err(x) => Err(x),
                    Ok(f) => Ok(RootDiffM { fragment: f, components: c }),
                },
            }
        },
        _ => Err(DecodeError::NotAnObject),
    }
}

pub open spec fn dres<T: View>(r: Result<T, DecodeError>) -> Result<T::V, DecodeError> {
    match r {
        Ok(x) => Ok(x@),
        Err(e) => Err(e),
    }
}

} // verus!

verus! {

proof fn lemma_template_entries_err(e: Seq<(String, Json)>, j: nat, m: nat)
    requires
        j <= m <= e.len(),
        dec_template_entries(e, j) is Err,
    ensures
        dec_template_entries(e, m) == dec_template_entries(e, j),
    decreases m - j,
{
    if j < m {
        lemma_template_entries_err(e, j, (m - 1) as nat);
    }
}

proof fn lemma_kid_diffs_err(e: Seq<(String, Json)>, root: bool, j: nat, m: nat)
    requires
        j <= m <= e.len(),
        dec_kid_diffs(e, root, j) is Err,
    ensures
        dec_kid_diffs(e, root, m) == dec_kid_diffs(e, root, j),
    decreases m - j,
{
    if j < m {
        lemma_kid_diffs_err(e, root, j, (m - 1) as nat);
    }
}

proof fn lemma_cells_err(c: Seq<Json>, j: nat, m: nat)
    requires
        j <= m <= c.len(),
        dec_cells(c, j) is Err,
    ensures
        dec_cells(c, m) == dec_cells(c, j),
    decreases m - j,
{
    if j < m {
        lemma_cells_err(c, j, (m - 1) as nat);
    }
}

proof fn lemma_rows_err(v: Seq<Json>, j: nat, m: nat)
    requires
        j <= m <= v.len(),
        dec_rows(v, j) is Err,
    ensures
        dec_rows(v, m) == dec_rows(v, j),
    decreases m - j,
{
    if j < m {
        lemma_rows_err(v, j, (m - 1) as nat);
    }
}

proof fn lemma_component_entries_err(e: Seq<(String, Json)>, j: nat, m: nat)
    requires
        j <= m <= e.len(),
        dec_component_entries(e, j) is Err,
    ensures
        dec_component_entries(e, m) == dec_component_entries(e, j),
    decreases m - j,
{
    if j < m {
        lemma_component_entries_err(e, j, (m - 1) as nat);
    }
}

fn find_field(e: &Vec<(String, Json)>, k: &String) -> (r: Option<usize>)
    ensures
        match r {
            Some(i) => i == field_pos(e@, k@) && i < e@.len(),
            None => field_pos(e@, k@) < 0,
        },
{
    let mut i: usize = 0;
    while i < e.len()
        invariant
            i <= e@.len(),
            forall|j: int| 0 <= j < i ==> e@[j].0@ != k@,
        decreases e@.len() - i,
    {
        let same = e[i].0 == *k;
        if same {
            proof {
                assert(fields_m(e@)[i as int].0 == k@);
                lemma_key_pos(fields_m(e@), k@);
            }
            return Some(i);
        }
        i = i + 1;
    }
    proof {
        lemma_key_pos(fields_m(e@), k@);
    }
    None
}

fn is_reserved(k: &String, root: bool) -> (r: bool)
    ensures
        r == reserved(k@, root),
{
    let s = String::from_str("s");
    let d = String::from_str("d");
    let p = String::from_str("p");
    let c = String::from_str("c");
    *k == s || *k == d || *k == p || (root && *k == c)
}

fn all_reserved(e: &Vec<(String, Json)>, root: bool) -> (r: bool)
    ensures
        r == (forall|i: int| 0 <= i < e@.len() ==> reserved(#[trigger] e@[i].0@, root)),
{
    let mut i: usize = 0;
    while i < e.len()
        invariant
            i <= e@.len(),
            forall|j: int| 0 <= j < i ==> reserved(#[trigger] e@[j].0@, root),
        decreases e@.len() - i,
    {
        if !is_reserved(&e[i].0, root) {
            return false;
        }
        i = i + 1;
    }
    true
}

fn decode_strs(j: &Json) -> (r: Option<Vec<String>>)
    ensures
        match r {
            Some(v) => dec_strs(*j) == Some(strs_m(v@)),
            None => dec_strs(*j) is None,
        },
{
    match j {
        Json::Array(v) => {
            let mut out: Vec<String> = Vec::new();
            let mut i: usize = 0;
            while i < v.len()
                invariant
                    i <= v@.len(),
                    out@.len() == i,
                    *j == Json::Array(*v),
                    forall|k: int| 0 <= k < i ==> v@[k] is Str && out@[k]@ == v@[k]->Str_0@,
                decreases v@.len() - i,
            {
                match &v[i] {
                    Json::Str(s) => {
                        out.push(s.clone());
                    },
                    _ => {
                        assert(!(v@[i as int] is Str));
                        return None;
                    },
                }
                i = i + 1;
            }
            assert(strs_m(out@) =~= Seq::new(v@.len(), |i: int| v@[i]->Str_0@));
            Some(out)
        },
        _ => None,
    }
}

fn decode_statics(j: &Json) -> (r: Result<Statics, DecodeError>)
    ensures
        match r {
            Ok(s) => dec_statics(*j) == Ok::<StaticsM, DecodeError>(statics_m(s)),
            Err(x) => dec_statics(*j) == Err::<StaticsM, DecodeError>(x),
        },
{
    match j {
        Json::Int(i) => {
            if *i >= i32::MIN as i64 && *i <= i32::MAX as i64 {
                Ok(Statics::TemplateRef(*i as i32))
            } else {
                Err(DecodeError::BadValue)
            }
        },
        _ => match decode_strs(j) {
            Some(v) => Ok(Statics::Statics(v)),
            None => Err(DecodeError::BadValue),
        },
    }
}

fn decode_cstatics(j: &Json) -> (r: Result<ComponentStatics, DecodeError>)
    ensures
        match r {
            Ok(s) => dec_cstatics(*j) == Ok::<ComponentStaticsM, DecodeError>(cstatics_m(s)),
            Err(x) => dec_cstatics(*j) == Err::<ComponentStaticsM, DecodeError>(x),
        },
{
    match j {
        Json::Int(i) => {
            if *i >= i32::MIN as i64 && *i <= i32::MAX as i64 {
                Ok(ComponentStatics::ComponentRef(*i as i32))
            } else {
                Err(DecodeError::BadValue)
            }
        },
        _ => match decode_strs(j) {
            Some(v) => Ok(ComponentStatics::Statics(v)),
            None => Err(DecodeError::BadValue),
        },
    }
}

fn decode_templates(j: &Json) -> (r: Result<Vec<(i32, Vec<String>)>, DecodeError>)
    ensures
        match r {
            Ok(t) => dec_templates(*j) == Ok::<TemplatesM, DecodeError>(templates_m(t@)),
            Err(x) => dec_templates(*j) == Err::<TemplatesM, DecodeError>(x),
        },
{
    match j {
        Json::Object(e) => {
            let mut out: Vec<(i32, Vec<String>)> = Vec::new();
            assert(templates_m(out@) =~= Seq::empty());
            let mut i: usize = 0;
            while i < e.len()
                invariant
                    i <= e@.len(),
                    *j == Json::Object(*e),
                    dec_template_entries(e@, i as nat) == Ok::<TemplatesM, DecodeError>(
                        templates_m(out@),
                    ),
                decreases e@.len() - i,
            {
                let ghost acc = templates_m(out@);
                match parse_key(&e[i].0) {
                    None => {
                        proof {
                            lemma_template_entries_err(e@, (i + 1) as nat, e@.len());
                        }
                        return Err(DecodeError::UnknownKey);
                    },
                    Some(v) => match decode_strs(&e[i].1) {
                        None => {
                            proof {
                                lemma_template_entries_err(e@, (i + 1) as nat, e@.len());
                            }
                            return Err(DecodeError::BadValue);
                        },
                        Some(s) => {
                            out.push((v as i32, s));
                            assert(templates_m(out@) =~= acc.push((v as i32, strs_m(s@))));
                        },
                    },
                }
                i = i + 1;
            }
            Ok(out)
        },
        _ => Err(DecodeError::BadValue),
    }
}

fn decode_child_diff(j: &Json) -> (r: Result<ChildDiff, DecodeError>)
    ensures
        dres(r) == dec_child_diff(*j),
    decreases *j, 0nat,
{
    match j {
        Json::Str(s) => Ok(ChildDiff::String(s.clone())),
        Json::Int(i) => {
            if *i >= i32::MIN as i64 && *i <= i32::MAX as i64 {
                Ok(ChildDiff::ComponentID(*i as i32))
            } else {
                Err(DecodeError::BadValue)
            }
        },
        Json::Object(e) => match decode_frag_entries(e, false) {
            Err(x) => Err(x),
            Ok(f) => Ok(ChildDiff::Fragment(f)),
        },
        _ => Err(DecodeError::BadValue),
    }
}

fn decode_kid_diffs(e: &Vec<(String, Json)>, root: bool) -> (r: Result<
    Vec<(usize, ChildDiff)>,
    DecodeError,
>)
    ensures
        match r {
            Ok(v) => dec_kid_diffs(e@, root, e@.len()) == Ok::<
                Seq<(usize, ChildDiffM)>,
                DecodeError,
            >(kid_diffs_m(v@)),
            Err(x) => dec_kid_diffs(e@, root, e@.len()) == Err::<
                Seq<(usize, ChildDiffM)>,
                DecodeError,
            >(x),
        },
    decreases *e, 0nat,
{
    let mut out: Vec<(usize, ChildDiff)> = Vec::new();
    assert(kid_diffs_m(out@) =~= Seq::empty());
    let mut i: usize = 0;
    while i < e.len()
        invariant
            i <= e@.len(),
            dec_kid_diffs(e@, root, i as nat) == Ok::<Seq<(usize, ChildDiffM)>, DecodeError>(
                kid_diffs_m(out@),
            ),
        decreases e@.len() - i,
    {
        if !is_reserved(&e[i].0, root) {
            let ghost acc = kid_diffs_m(out@);
            match parse_key(&e[i].0) {
                Some(v) => {
                    if v < 0 {
                        proof {
                            lemma_kid_diffs_err(e@, root, (i + 1) as nat, e@.len());
                        }
                        return Err(DecodeError::UnknownKey);
                    }
                    match decode_child_diff(&e[i].1) {
                        Err(x) => {
                            proof {
                                lemma_kid_diffs_err(e@, root, (i + 1) as nat, e@.len());
                            }
                            return Err(x);
                        },
                        Ok(c) => {
                            out.push((v as usize, c));
                            assert(kid_diffs_m(out@) =~= acc.push((v as usize, child_diff_m(c))));
                        },
                    }
                },
                None => {
                    proof {
                        lemma_kid_diffs_err(e@, root, (i + 1) as nat, e@.len());
                    }
                    return Err(DecodeError::UnknownKey);
                },
            }
        }
        i = i + 1;
    }
    Ok(out)
}

fn decode_rows(v: &Vec<Json>) -> (r: Result<Vec<Vec<ChildDiff>>, DecodeError>)
    ensures
        match r {
            Ok(d) => dec_rows(v@, v@.len()) == Ok::<Seq<Seq<ChildDiffM>>, DecodeError>(
                row_diffs_m(d@),
            ),
            Err(x) => dec_rows(v@, v@.len()) == Err::<Seq<Seq<ChildDiffM>>, DecodeError>(x),
        },
    decreases *v, 0nat,
{
    let mut out: Vec<Vec<ChildDiff>> = Vec::new();
    assert(row_diffs_m(out@) =~= Seq::empty());
    let mut i: usize = 0;
    while i < v.len()
        invariant
            i <= v@.len(),
            dec_rows(v@, i as nat) == Ok::<Seq<Seq<ChildDiffM>>, DecodeError>(row_diffs_m(out@)),
        decreases v@.len() - i,
    {
        let ghost acc = row_diffs_m(out@);
        match &v[i] {
            Json::Array(c) => {
                let mut row: Vec<ChildDiff> = Vec::new();
                assert(row_diff_m(row@) =~= Seq::empty());
                let mut m: usize = 0;
                while m < c.len()
                    invariant
                        m <= c@.len(),
                        i < v@.len(),
                        v@[i as int] == Json::Array(*c),
                        dec_rows(v@, i as nat) == Ok::<Seq<Seq<ChildDiffM>>, DecodeError>(acc),
                        dec_cells(c@, m as nat) == Ok::<Seq<ChildDiffM>, DecodeError>(
                            row_diff_m(row@),
                        ),
                    decreases c@.len() - m,
                {
                    let ghost racc = row_diff_m(row@);
                    proof {
                        axiom_vec_index_decreases(*v, i as int);
                        axiom_vec_index_decreases(*c, m as int);
                    }
                    match decode_child_diff(&c[m]) {
                        Err(x) => {
                            proof {
                                lemma_cells_err(c@, (m + 1) as nat, c@.len());
                                assert(dec_row(v@[i as int]) == dec_cells(c@, c@.len()));
                                assert(dec_rows(v@, (i + 1) as nat) is Err);
                                lemma_rows_err(v@, (i + 1) as nat, v@.len());
                            }
                            return Err(x);
                        },
                        Ok(d) => {
                            row.push(d);
                            assert(row_diff_m(row@) =~= racc.push(child_diff_m(d)));
                        },
                    }
                    m = m + 1;
                }
                assert(dec_row(v@[i as int]) == dec_cells(c@, c@.len()));
                out.push(row);
                assert(row_diffs_m(out@) =~= acc.push(row_diff_m(row@)));
            },
            _ => {
                proof {
                    assert(dec_row(v@[i as int]) is Err);
                    lemma_rows_err(v@, (i + 1) as nat, v@.len());
                }
                return Err(DecodeError::BadValue);
            },
        }
        i = i + 1;
    }
    Ok(out)
}

fn decode_frag_entries(e: &Vec<(String, Json)>, root: bool) -> (r: Result<FragmentDiff, DecodeError>)
    ensures
        dres(r) == dec_frag_entries(e@, root),
    decreases *e, 1nat,
{
    let dk = String::from_str("d");
    let sk = String::from_str("s");
    let pk = String::from_str("p");
    let pd = find_field(e, &dk);
    let ps = find_field(e, &sk);
    let pp = find_field(e, &pk);
    match pd {
        Some(pd) => {
            if !all_reserved(e, root) {
                return Err(DecodeError::UnknownKey);
            }
            match &e[pd].1 {
                Json::Array(v) => {
                    let dy = match decode_rows(v) {
                        Err(x) => {
                            return Err(x);
                        },
                        Ok(d) => d,
                    };
                    let st = match ps {
                        Some(ps) => match decode_statics(&e[ps].1) {
                            Err(x) => {
                                return Err(x);
                            },
                            Ok(s) => Some(s),
                        },
                        None => None,
                    };
                    let tp = match pp {
                        Some(pp) => match decode_templates(&e[pp].1) {
                            Err(x) => {
                                return Err(x);
                            },
                            Ok(t) => Some(t),
                        },
                        None => None,
                    };
                    Ok(FragmentDiff::UpdateComprehension { dynamics: dy, templates: tp, statics: st })
                },
                _ => Err(DecodeError::BadValue),
            }
        },
        None => {
            if pp.is_some() {
                return Err(DecodeError::UnknownKey);
            }
            match ps {
                Some(ps) => {
                    let kd = match decode_kid_diffs(e, root) {
                        Err(x) => {
                            return Err(x);
                        },
                        Ok(kd) => kd,
                    };
                    let st = match decode_statics(&e[ps].1) {
                        Err(x) => {
                            return Err(x);
                        },
                        Ok(s) => s,
                    };
                    match new_kids_exec(kd) {
                        Err(_) => Err(DecodeError::BadValue),
                        Ok(kids) => Ok(
                            FragmentDiff::ReplaceCurrent(
                                crate::tree::Fragment::Regular { children: kids, statics: st },
                            ),
                        ),
                    }
                },
                None => match decode_kid_diffs(e, root) {
                    Err(x) => Err(x),
                    Ok(kd) => Ok(FragmentDiff::UpdateRegular { children: kd }),
                },
            }
        },
    }
}

/// Reads an update of a fragment.
pub fn decode_fragment_diff(j: &Json) -> (r: Result<FragmentDiff, DecodeError>)
    ensures
        dres(r) == dec_fragment_diff(*j),
{
    match j {
        Json::Object(e) => decode_frag_entries(e, false),
        _ => Err(DecodeError::NotAnObject),
    }
}

/// Reads an update of a component.
pub fn decode_component_diff(j: &Json) -> (r: Result<ComponentDiff, DecodeError>)
    ensures
        dres(r) == dec_component(*j),
{
    match j {
        Json::Object(e) => {
            let dk = String::from_str("d");
            let sk = String::from_str("s");
            let pk = String::from_str("p");
            if find_field(e, &dk).is_some() || find_field(e, &pk).is_some() {
                return Err(DecodeError::UnknownKey);
            }
            let kd = match decode_kid_diffs(e, false) {
                Err(x) => {
                    return Err(x);
                },
                Ok(kd) => kd,
            };
            match find_field(e, &sk) {
                Some(ps) => {
                    let st = match decode_cstatics(&e[ps].1) {
                        Err(x) => {
                            return Err(x);
                        },
                        Ok(s) => s,
                    };
                    match new_kids_exec(kd) {
                        Err(_) => Err(DecodeError::BadValue),
                        Ok(kids) => Ok(ComponentDiff::ReplaceCurrent { children: kids, statics: st }),
                    }
                },
                None => Ok(ComponentDiff::UpdateRegular { children: kd }),
            }
        },
        _ => Err(DecodeError::NotAnObject),
    }
}

fn decode_components(j: &Json) -> (r: Result<Vec<(i32, ComponentDiff)>, DecodeError>)
    ensures
        match r {
            Ok(v) => dec_components(*j) == Ok::<Seq<(i32, ComponentDiffM)>, DecodeError>(
                comp_diffs_m(v@),
            ),
            Err(x) => dec_components(*j) == Err::<Seq<(i32, ComponentDiffM)>, DecodeError>(x),
        },
{
    match j {
        Json::Object(e) => {
            let mut out: Vec<(i32, ComponentDiff)> = Vec::new();
            assert(comp_diffs_m(out@) =~= Seq::empty());
            let mut i: usize = 0;
            while i < e.len()
                invariant
                    i <= e@.len(),
                    *j == Json::Object(*e),
                    dec_component_entries(e@, i as nat) == Ok::<
                        Seq<(i32, ComponentDiffM)>,
                        DecodeError,
                    >(comp_diffs_m(out@)),
                decreases e@.len() - i,
            {
                let ghost acc = comp_diffs_m(out@);
                match parse_key(&e[i].0) {
                    None => {
                        proof {
                            lemma_component_entries_err(e@, (i + 1) as nat, e@.len());
                        }
                        return Err(DecodeError::UnknownKey);
                    },
                    Some(v) => match decode_component_diff(&e[i].1) {
                        Err(x) => {
                            proof {
                                lemma_component_entries_err(e@, (i + 1) as nat, e@.len());
                            }
                            return Err(x);
                        },
                        Ok(c) => {
                            out.push((v as i32, c));
                            assert(comp_diffs_m(out@) =~= acc.push((v as i32, comp_diff_m(c))));
                        },
                    },
                }
                i = i + 1;
            }
            Ok(out)
        },
        _ => Err(DecodeError::BadValue),
    }
}

/// Reads a whole update: the root fragment and the components under `"c"`.
pub fn decode_root_diff(j: &Json) -> (r: Result<RootDiff, DecodeError>)
    ensures
        dres(r) == dec_root(*j),
{
    match j {
        Json::Object(e) => {
            let ck = String::from_str("c");
            let components = match find_field(e, &ck) {
                Some(pc) => match decode_components(&e[pc].1) {
                    Err(x) => {
                        return Err(x);
                    },
                    Ok(c) => Some(c),
                },
                None => None,
            };
            match decode_frag_entries(e, true) {
                Err(x) => Err(x),
                Ok(f) => Ok(RootDiff { fragment: f, components }),
            }
        },
        _ => Err(DecodeError::NotAnObject),
    }
}

} // verus!
