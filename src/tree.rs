// The state tree, the diff tree, and their mathematical model.
use vstd::prelude::*;

verus! {

/// Statics of a fragment: the constant text between dynamic slots, either
/// shipped inline or named by the id of a template.
#[derive(Debug, Clone, PartialEq)]
pub enum Statics {
    Statics(Vec<String>),
    TemplateRef(i32),
}

/// Statics of a component: inline, or borrowed from another component.
#[derive(Debug, Clone, PartialEq)]
pub enum ComponentStatics {
    Statics(Vec<String>),
    ComponentRef(i32),
}

/// A slot of a fragment or component.
#[derive(Debug, PartialEq)]
pub enum Child {
    Fragment(Fragment),
    ComponentID(i32),
    String(String),
}

/// Template dictionary: template id to its statics.
///
/// The keyed lists below stand for maps. Their keys are meant to be distinct,
/// as the keys of the JSON objects they are read from are; nothing here
/// enforces it. Where a key repeats, lookup reads the first entry, and the
/// entries of an update are applied one after the other, so a repeated id in
/// an update of the component pool merges into the component the earlier
/// entry installed.
pub type Templates = Option<Vec<(i32, Vec<String>)>>;

/// Children of a regular fragment or of a component, keyed by slot index
/// (see `Templates` on repeated keys).
pub type Children = Vec<(usize, Child)>;

/// Rows of a comprehension.
pub type Dynamics = Vec<Vec<Child>>;

/// The component pool, keyed by component id (see `Templates` on repeated keys).
pub type Components = Vec<(i32, Component)>;

#[derive(Debug, PartialEq)]
pub enum Fragment {
    Regular { children: Children, statics: Statics },
    Comprehension { dynamics: Dynamics, statics: Option<Statics>, templates: Templates },
}

#[derive(Debug, PartialEq)]
pub struct Component {
    pub children: Children,
    pub statics: ComponentStatics,
}

#[derive(Debug, PartialEq)]
pub struct Root {
    pub fragment: Fragment,
    pub components: Option<Components>,
}

/// A child slot as it comes in an update.
#[derive(Debug, PartialEq)]
pub enum ChildDiff {
    Fragment(FragmentDiff),
    ComponentID(i32),
    String(String),
}

#[derive(Debug, PartialEq)]
pub enum FragmentDiff {
    UpdateRegular { children: Vec<(usize, ChildDiff)> },
    UpdateComprehension {
        dynamics: Vec<Vec<ChildDiff>>,
        templates: Templates,
        statics: Option<Statics>,
    },
    ReplaceCurrent(Fragment),
}

#[derive(Debug, PartialEq)]
pub enum ComponentDiff {
    ReplaceCurrent { children: Children, statics: ComponentStatics },
    UpdateRegular { children: Vec<(usize, ChildDiff)> },
}

#[derive(Debug, PartialEq)]
pub struct RootDiff {
    pub fragment: FragmentDiff,
    pub components: Option<Vec<(i32, ComponentDiff)>>,
}

#[derive(Debug, Clone, Copy, PartialEq, Eq)]
pub enum MergeError {
    FragmentTypeMismatch,
    CreateComponentFromUpdate,
    CreateChildFromUpdateFragment,
    AddChildToExisting,
}

/// Errors of rendering. Besides the lookups that can fail, a tree whose
/// statics do not fit its children, a comprehension given statics of its own
/// and from a cousin at once, a template reference where inline statics are
/// expected, and a component reference that leads back to itself are reported
/// rather than aborting.
#[derive(Debug, Clone, Copy, PartialEq, Eq)]
pub enum RenderError {
    NoComponents,
    NoTemplates,
    TemplateNotFound(i32),
    ComponentNotFound(i32),
    MergeError(MergeError),
    ArityMismatch,
    StaticsConflict,
    UnexpectedTemplateRef,
    ComponentCycle(i32),
}

// ---------------------------------------------------------------------------
// Mathematical model

pub type Strs = Seq<Seq<char>>;

pub type TemplatesM = Seq<(i32, Strs)>;

pub enum StaticsM {
    Inline(Strs),
    TemplateRef(i32),
}

pub enum ComponentStaticsM {
    Inline(Strs),
    ComponentRef(i32),
}

pub enum ChildM {
    Fragment(FragmentM),
    ComponentID(i32),
    Text(Seq<char>),
}

pub enum FragmentM {
    Regular { children: Seq<(usize, ChildM)>, statics: StaticsM },
    Comprehension {
        dynamics: Seq<Seq<ChildM>>,
        statics: Option<StaticsM>,
        templates: Option<TemplatesM>,
    },
}

pub struct ComponentM {
    pub children: Seq<(usize, ChildM)>,
    pub statics: ComponentStaticsM,
}

pub type PoolM = Seq<(i32, ComponentM)>;

pub struct RootM {
    pub fragment: FragmentM,
    pub components: Option<PoolM>,
}

pub enum ChildDiffM {
    Fragment(FragmentDiffM),
    ComponentID(i32),
    Text(Seq<char>),
}

pub enum FragmentDiffM {
    UpdateRegular { children: Seq<(usize, ChildDiffM)> },
    UpdateComprehension {
        dynamics: Seq<Seq<ChildDiffM>>,
        templates: Option<TemplatesM>,
        statics: Option<StaticsM>,
    },
    ReplaceCurrent(FragmentM),
}

pub enum ComponentDiffM {
    ReplaceCurrent { children: Seq<(usize, ChildM)>, statics: ComponentStaticsM },
    UpdateRegular { children: Seq<(usize, ChildDiffM)> },
}

pub struct RootDiffM {
    pub fragment: FragmentDiffM,
    pub components: Option<Seq<(i32, ComponentDiffM)>>,
}

pub open spec fn strs_m(v: Seq<String>) -> Strs {
    Seq::new(v.len(), |i: int| v[i]@)
}

pub open spec fn templates_m(t: Seq<(i32, Vec<String>)>) -> TemplatesM {
    Seq::new(t.len(), |i: int| (t[i].0, strs_m(t[i].1@)))
}

pub open spec fn opt_templates_m(t: Templates) -> Option<TemplatesM> {
    match t {
        Some(v) => Some(templates_m(v@)),
        None => None,
    }
}

pub open spec fn statics_m(s: Statics) -> StaticsM {
    match s {
        Statics::Statics(v) => StaticsM::Inline(strs_m(v@)),
        Statics::TemplateRef(id) => StaticsM::TemplateRef(id),
    }
}

pub open spec fn opt_statics_m(s: Option<Statics>) -> Option<StaticsM> {
    match s {
        Some(v) => Some(statics_m(v)),
        None => None,
    }
}

pub open spec fn cstatics_m(s: ComponentStatics) -> ComponentStaticsM {
    match s {
        ComponentStatics::Statics(v) => ComponentStaticsM::Inline(strs_m(v@)),
        ComponentStatics::ComponentRef(id) => ComponentStaticsM::ComponentRef(id),
    }
}

pub open spec fn child_m(c: Child) -> ChildM
    decreases c,
{
    match c {
        Child::Fragment(f) => ChildM::Fragment(frag_m(f)),
        Child::ComponentID(id) => ChildM::ComponentID(id),
        Child::String(s) => ChildM::Text(s@),
    }
}

pub open spec fn frag_m(f: Fragment) -> FragmentM
    decreases f,
{
    match f {
        Fragment::Regular { children, statics } => FragmentM::Regular {
            children: kids_m(children@),
            statics: statics_m(statics),
        },
        Fragment::Comprehension { dynamics, statics, templates } => FragmentM::Comprehension {
            dynamics: rows_m(dynamics@),
            statics: opt_statics_m(statics),
            templates: opt_templates_m(templates),
        },
    }
}

pub open spec fn kids_m(s: Seq<(usize, Child)>) -> Seq<(usize, ChildM)>
    decreases s,
{
    Seq::new(s.len(), |i: int| if 0 <= i < s.len() { (s[i].0, child_m(s[i].1)) } else { (0, ChildM::ComponentID(0)) })
}

pub open spec fn row_m(s: Seq<Child>) -> Seq<ChildM>
    decreases s,
{
    Seq::new(s.len(), |i: int| if 0 <= i < s.len() { child_m(s[i]) } else { ChildM::ComponentID(0) })
}

pub open spec fn rows_m(s: Seq<Vec<Child>>) -> Seq<Seq<ChildM>>
    decreases s,
{
    Seq::new(s.len(), |i: int| if 0 <= i < s.len() { row_m(s[i]@) } else { Seq::empty() })
}

} // verus!

verus! {

pub open spec fn child_diff_m(c: ChildDiff) -> ChildDiffM
    decreases c,
{
    match c {
        ChildDiff::Fragment(f) => ChildDiffM::Fragment(frag_diff_m(f)),
        ChildDiff::ComponentID(id) => ChildDiffM::ComponentID(id),
        ChildDiff::String(s) => ChildDiffM::Text(s@),
    }
}

pub open spec fn frag_diff_m(f: FragmentDiff) -> FragmentDiffM
    decreases f,
{
    match f {
        FragmentDiff::UpdateRegular { children } => FragmentDiffM::UpdateRegular {
            children: kid_diffs_m(children@),
        },
        FragmentDiff::UpdateComprehension { dynamics, templates, statics } =>
            FragmentDiffM::UpdateComprehension {
                dynamics: row_diffs_m(dynamics@),
                templates: opt_templates_m(templates),
                statics: opt_statics_m(statics),
            },
        FragmentDiff::ReplaceCurrent(f) => FragmentDiffM::ReplaceCurrent(frag_m(f)),
    }
}

pub open spec fn kid_diffs_m(s: Seq<(usize, ChildDiff)>) -> Seq<(usize, ChildDiffM)>
    decreases s,
{
    Seq::new(s.len(), |i: int| if 0 <= i < s.len() { (s[i].0, child_diff_m(s[i].1)) } else { (0, ChildDiffM::ComponentID(0)) })
}

pub open spec fn row_diff_m(s: Seq<ChildDiff>) -> Seq<ChildDiffM>
    decreases s,
{
    Seq::new(s.len(), |i: int| if 0 <= i < s.len() { child_diff_m(s[i]) } else { ChildDiffM::ComponentID(0) })
}

pub open spec fn row_diffs_m(s: Seq<Vec<ChildDiff>>) -> Seq<Seq<ChildDiffM>>
    decreases s,
{
    Seq::new(s.len(), |i: int| if 0 <= i < s.len() { row_diff_m(s[i]@) } else { Seq::empty() })
}

pub open spec fn comp_m(c: Component) -> ComponentM {
    ComponentM { children: kids_m(c.children@), statics: cstatics_m(c.statics) }
}

pub open spec fn pool_m(s: Seq<(i32, Component)>) -> PoolM {
    Seq::new(s.len(), |i: int| (s[i].0, comp_m(s[i].1)))
}

pub open spec fn opt_pool_m(s: Option<Components>) -> Option<PoolM> {
    match s {
        Some(v) => Some(pool_m(v@)),
        None => None,
    }
}

pub open spec fn comp_diff_m(c: ComponentDiff) -> ComponentDiffM {
    match c {
        ComponentDiff::ReplaceCurrent { children, statics } => ComponentDiffM::ReplaceCurrent {
            children: kids_m(children@),
            statics: cstatics_m(statics),
        },
        ComponentDiff::UpdateRegular { children } => ComponentDiffM::UpdateRegular {
            children: kid_diffs_m(children@),
        },
    }
}

pub open spec fn comp_diffs_m(s: Seq<(i32, ComponentDiff)>) -> Seq<(i32, ComponentDiffM)> {
    Seq::new(s.len(), |i: int| (s[i].0, comp_diff_m(s[i].1)))
}

impl View for Child {
    type V = ChildM;

    open spec fn view(&self) -> ChildM {
        child_m(*self)
    }
}

impl View for Fragment {
    type V = FragmentM;

    open spec fn view(&self) -> FragmentM {
        frag_m(*self)
    }
}

impl View for Component {
    type V = ComponentM;

    open spec fn view(&self) -> ComponentM {
        comp_m(*self)
    }
}

impl View for Root {
    type V = RootM;

    open spec fn view(&self) -> RootM {
        RootM { fragment: frag_m(self.fragment), components: opt_pool_m(self.components) }
    }
}

impl View for ChildDiff {
    type V = ChildDiffM;

    open spec fn view(&self) -> ChildDiffM {
        child_diff_m(*self)
    }
}

impl View for FragmentDiff {
    type V = FragmentDiffM;

    open spec fn view(&self) -> FragmentDiffM {
        frag_diff_m(*self)
    }
}

impl View for ComponentDiff {
    type V = ComponentDiffM;

    open spec fn view(&self) -> ComponentDiffM {
        comp_diff_m(*self)
    }
}

impl View for RootDiff {
    type V = RootDiffM;

    open spec fn view(&self) -> RootDiffM {
        RootDiffM {
            fragment: frag_diff_m(self.fragment),
            components: match self.components {
                Some(v) => Some(comp_diffs_m(v@)),
                None => None,
            },
        }
    }
}

/// A copy of a list of strings, with the same text.
pub fn copy_strs(v: &Vec<String>) -> (r: Vec<String>)
    ensures
        strs_m(r@) == strs_m(v@),
{
    let mut r: Vec<String> = Vec::new();
    let mut i: usize = 0;
    while i < v.len()
        invariant
            i <= v.len(),
            r@.len() == i,
            forall|j: int| 0 <= j < i ==> r@[j]@ == v@[j]@,
        decreases v.len() - i,
    {
        r.push(v[i].clone());
        i = i + 1;
    }
    assert(strs_m(r@) =~= strs_m(v@));
    r
}

/// A copy of a template dictionary, entry by entry.
pub fn copy_templates(v: &Vec<(i32, Vec<String>)>) -> (r: Vec<(i32, Vec<String>)>)
    ensures
        templates_m(r@) == templates_m(v@),
{
    let mut r: Vec<(i32, Vec<String>)> = Vec::new();
    let mut i: usize = 0;
    while i < v.len()
        invariant
            i <= v.len(),
            r@.len() == i,
            forall|j: int| 0 <= j < i ==> r@[j].0 == v@[j].0 && strs_m(r@[j].1@) == strs_m(v@[j].1@),
        decreases v.len() - i,
    {
        r.push((v[i].0, copy_strs(&v[i].1)));
        i = i + 1;
    }
    assert(templates_m(r@) =~= templates_m(v@));
    r
}

pub fn copy_opt_templates(t: &Templates) -> (r: Templates)
    ensures
        opt_templates_m(r) == opt_templates_m(*t),
{
    match t {
        Some(v) => Some(copy_templates(v)),
        None => None,
    }
}

} // verus!

verus! {

pub open spec fn merge_error_text(e: MergeError) -> Seq<char> {
    match e {
        MergeError::FragmentTypeMismatch => "Fragment type mismatch"@,
        MergeError::CreateComponentFromUpdate => "Create component from update"@,
        MergeError::CreateChildFromUpdateFragment => "Create child from update fragment"@,
        MergeError::AddChildToExisting => "Add child to existing"@,
    }
}

impl MergeError {
    /// A human-readable message.
    pub fn to_string(&self) -> (r: String)
        ensures
            r@ == merge_error_text(*self),
    {
        match self {
            MergeError::FragmentTypeMismatch => String::from_str("Fragment type mismatch"),
            MergeError::CreateComponentFromUpdate => String::from_str("Create component from update"),
            MergeError::CreateChildFromUpdateFragment => String::from_str(
                "Create child from update fragment",
            ),
            MergeError::AddChildToExisting => String::from_str("Add child to existing"),
        }
    }
}

pub open spec fn render_error_text(e: RenderError) -> Seq<char> {
    match e {
        RenderError::NoComponents => "No components"@,
        RenderError::NoTemplates => "No templates"@,
        RenderError::TemplateNotFound(_) => "Template not found"@,
        RenderError::ComponentNotFound(_) => "Component not found"@,
        RenderError::MergeError(m) => merge_error_text(m),
        RenderError::ArityMismatch => "Statics do not fit the children"@,
        RenderError::StaticsConflict => "Both statics and cousin statics"@,
        RenderError::UnexpectedTemplateRef => "Template reference in a regular fragment"@,
        RenderError::ComponentCycle(_) => "Component references form a cycle"@,
    }
}

impl RenderError {
    /// A human-readable message; the id of a missing template or component
    /// is left to the variant.
    pub fn to_string(&self) -> (r: String)
        ensures
            r@ == render_error_text(*self),
    {
        match self {
            RenderError::NoComponents => String::from_str("No components"),
            RenderError::NoTemplates => String::from_str("No templates"),
            RenderError::TemplateNotFound(_) => String::from_str("Template not found"),
            RenderError::ComponentNotFound(_) => String::from_str("Component not found"),
            RenderError::MergeError(m) => m.to_string(),
            RenderError::ArityMismatch => String::from_str("Statics do not fit the children"),
            RenderError::StaticsConflict => String::from_str("Both statics and cousin statics"),
            RenderError::UnexpectedTemplateRef => String::from_str(
                "Template reference in a regular fragment",
            ),
            RenderError::ComponentCycle(_) => String::from_str("Component references form a cycle"),
        }
    }

    pub fn from(value: MergeError) -> (r: RenderError)
        ensures
            r == RenderError::MergeError(value),
    {
        RenderError::MergeError(value)
    }
}

} // verus!
