use live_diff::{
    decode_fragment_diff, decode_root_diff, Child, ChildDiff, Component, ComponentDiff,
    ComponentStatics, DecodeError, Fragment, FragmentDiff, FragmentMerge, Json, MergeError,
    RenderError, Root, RootDiff, Statics,
};

fn strings(v: &[&str]) -> Vec<String> {
    v.iter().map(|s| s.to_string()).collect()
}

fn text(s: &str) -> Child {
    Child::String(s.to_string())
}

fn from_value(v: &serde_json::Value) -> Json {
    match v {
        serde_json::Value::String(s) => Json::Str(s.clone()),
        serde_json::Value::Array(a) => Json::Array(a.iter().map(from_value).collect()),
        serde_json::Value::Object(o) => {
            Json::Object(o.iter().map(|(k, v)| (k.clone(), from_value(v))).collect())
        }
        serde_json::Value::Number(n) => match n.as_i64() {
            Some(i) => Json::Int(i),
            None => Json::Real,
        },
        serde_json::Value::Bool(b) => Json::Bool(*b),
        serde_json::Value::Null => Json::Null,
    }
}

fn obj(entries: Vec<(&str, Json)>) -> Json {
    Json::Object(entries.into_iter().map(|(k, v)| (k.to_string(), v)).collect())
}

fn jstrs(v: &[&str]) -> Json {
    Json::Array(v.iter().map(|s| Json::Str(s.to_string())).collect())
}

fn inline_component(children: Vec<(usize, Child)>, statics: &[&str]) -> Component {
    Component { children, statics: ComponentStatics::Statics(strings(statics)) }
}

#[test]
fn single_static_renders_verbatim() {
    let f = Fragment::Regular { children: vec![], statics: Statics::Statics(strings(&["only"])) };
    assert_eq!(f.render(&None, None, None).unwrap(), "only");
}

#[test]
fn empty_comprehension_renders_empty() {
    let inline = Fragment::Comprehension {
        dynamics: vec![],
        statics: Some(Statics::Statics(strings(&["a", "b"]))),
        templates: None,
    };
    assert_eq!(inline.render(&None, None, None).unwrap(), "");
    let bare = Fragment::Comprehension { dynamics: vec![], statics: None, templates: None };
    assert_eq!(bare.render(&None, Some(strings(&["x", "y"])), None).unwrap(), "");
    let by_template = Fragment::Comprehension {
        dynamics: vec![],
        statics: Some(Statics::TemplateRef(0)),
        templates: Some(vec![(0, strings(&["<", ">"]))]),
    };
    assert_eq!(by_template.render(&None, None, None).unwrap(), "");
}

#[test]
fn own_template_resolves_locally() {
    let f = Fragment::Comprehension {
        dynamics: vec![vec![text("x")], vec![text("y")]],
        statics: Some(Statics::TemplateRef(0)),
        templates: Some(vec![(0, strings(&["<", ">"]))]),
    };
    let parent = Some(vec![(0, strings(&["[", "]"])), (1, strings(&["(", ")"]))]);
    assert_eq!(f.render(&None, None, parent).unwrap(), "<x><y>");
}

#[test]
fn parent_template_is_visible_in_comprehension() {
    let f = Fragment::Comprehension {
        dynamics: vec![vec![text("x")]],
        statics: Some(Statics::TemplateRef(1)),
        templates: Some(vec![(0, strings(&["<", ">"]))]),
    };
    let parent = Some(vec![(1, strings(&["(", ")"]))]);
    assert_eq!(f.render(&None, None, parent).unwrap(), "(x)");
}

#[test]
fn chain_of_two_refs_ends_at_inline_statics() {
    let pool = Some(vec![
        (1, inline_component(vec![(0, text("one"))], &["<b>", "</b>"])),
        (2, Component { children: vec![(0, text("two"))], statics: ComponentStatics::ComponentRef(1) }),
        (3, Component { children: vec![(0, text("three"))], statics: ComponentStatics::ComponentRef(2) }),
    ]);
    assert_eq!(Child::ComponentID(3).render(&pool, None, None).unwrap(), "<b>three</b>");
    let (_, c3) = &pool.as_ref().unwrap()[2];
    assert_eq!(c3.to_string_with_components(&pool).unwrap(), "<b>three</b>");
}

#[test]
fn replace_twice_is_idempotent() {
    let make = || Fragment::Regular {
        children: vec![(0, text("new"))],
        statics: Statics::Statics(strings(&["<", ">"])),
    };
    let current = Fragment::Regular { children: vec![], statics: Statics::Statics(strings(&["old"])) };
    let once = current.merge(FragmentDiff::ReplaceCurrent(make())).unwrap();
    let twice = once.merge(FragmentDiff::ReplaceCurrent(make())).unwrap();
    assert_eq!(twice, make());
    let c = inline_component(vec![], &["x"]);
    let d = || ComponentDiff::ReplaceCurrent { children: vec![], statics: ComponentStatics::ComponentRef(-4) };
    let c1 = c.merge(d()).unwrap();
    let c2 = Component { children: vec![], statics: ComponentStatics::ComponentRef(4) };
    assert_eq!(c1, c2);
    assert_eq!(c1.merge(d()).unwrap(), c2);
}

#[test]
fn templates_merge_associative_over_distinct_ids() {
    let a = || Some(vec![(0, strings(&["a"]))]);
    let b = || Some(vec![(1, strings(&["b"]))]);
    let c = || Some(vec![(2, strings(&["c"]))]);
    let left = a().merge(b()).unwrap().merge(c()).unwrap();
    let right = a().merge(b().merge(c()).unwrap()).unwrap();
    assert_eq!(left, right);
    assert_eq!(left, Some(vec![(0, strings(&["a"])), (1, strings(&["b"])), (2, strings(&["c"]))]));
}

#[test]
fn templates_merge_extends_known_ids() {
    let cur = Some(vec![(0, strings(&["a"]))]);
    let new = Some(vec![(0, strings(&["b"])), (1, strings(&["c"]))]);
    let merged = cur.merge(new).unwrap();
    assert_eq!(merged, Some(vec![(0, strings(&["a", "b"])), (1, strings(&["c"]))]));
    let none: Option<Vec<(i32, Vec<String>)>> = None;
    assert_eq!(none.merge(Some(vec![(3, strings(&["z"]))])).unwrap(), Some(vec![(3, strings(&["z"]))]));
}

#[test]
fn statics_merge_prefers_update() {
    let cur = Some(Statics::TemplateRef(1));
    assert_eq!(cur.merge(Some(Statics::TemplateRef(2))).unwrap(), Some(Statics::TemplateRef(2)));
    let cur = Some(Statics::TemplateRef(1));
    assert_eq!(cur.merge(None).unwrap(), Some(Statics::TemplateRef(1)));
}

#[test]
fn negative_ref_is_normalized_on_install() {
    let root = Root {
        fragment: Fragment::Regular { children: vec![], statics: Statics::Statics(strings(&[""])) },
        components: None,
    };
    let diff = RootDiff {
        fragment: FragmentDiff::UpdateRegular { children: vec![] },
        components: Some(vec![(
            5,
            ComponentDiff::ReplaceCurrent { children: vec![], statics: ComponentStatics::ComponentRef(-1) },
        )]),
    };
    let merged = root.merge(diff).unwrap();
    let pool = merged.components.unwrap();
    assert_eq!(pool[0].1.statics, ComponentStatics::ComponentRef(1));
    let c = Component { children: vec![], statics: ComponentStatics::ComponentRef(-9) };
    assert_eq!(c.fix_statics().statics, ComponentStatics::ComponentRef(9));
    let m = Component { children: vec![], statics: ComponentStatics::ComponentRef(i32::MIN) };
    assert_eq!(m.fix_statics().statics, ComponentStatics::ComponentRef(i32::MIN));
}

#[test]
fn prior_components_are_retained() {
    let root = Root {
        fragment: Fragment::Regular { children: vec![], statics: Statics::Statics(strings(&[""])) },
        components: Some(vec![
            (1, inline_component(vec![(0, text("a"))], &["<", ">"])),
            (2, inline_component(vec![], &["two"])),
        ]),
    };
    let diff = RootDiff {
        fragment: FragmentDiff::UpdateRegular { children: vec![] },
        components: Some(vec![(
            1,
            ComponentDiff::UpdateRegular { children: vec![(0, ChildDiff::String("b".into()))] },
        )]),
    };
    let merged = root.merge(diff).unwrap();
    let pool = merged.components.unwrap();
    assert_eq!(pool.len(), 2);
    assert_eq!(pool[0].1, inline_component(vec![(0, text("b"))], &["<", ">"]));
    assert_eq!(pool[1].1, inline_component(vec![], &["two"]));
}

#[test]
fn comprehension_update_replaces_rows_and_keeps_statics() {
    let cur = Fragment::Comprehension {
        dynamics: vec![vec![text("a")]],
        statics: Some(Statics::Statics(strings(&["<", ">"]))),
        templates: None,
    };
    let diff = FragmentDiff::UpdateComprehension {
        dynamics: vec![vec![ChildDiff::String("b".into())], vec![ChildDiff::String("c".into())]],
        templates: None,
        statics: None,
    };
    let merged = cur.merge(diff).unwrap();
    assert_eq!(merged.render(&None, None, None).unwrap(), "<b><c>");
}

#[test]
fn merge_error_variants() {
    let regular = || Fragment::Regular { children: vec![(0, text("a"))], statics: Statics::Statics(strings(&["<", ">"])) };
    let comp_diff = FragmentDiff::UpdateComprehension { dynamics: vec![], templates: None, statics: None };
    assert_eq!(regular().merge(comp_diff), Err(MergeError::FragmentTypeMismatch));
    let add = FragmentDiff::UpdateRegular { children: vec![(3, ChildDiff::String("x".into()))] };
    assert_eq!(regular().merge(add), Err(MergeError::AddChildToExisting));
    let child = text("a").merge(ChildDiff::Fragment(FragmentDiff::UpdateRegular { children: vec![] }));
    assert_eq!(child, Err(MergeError::CreateChildFromUpdateFragment));
    let root = Root { fragment: regular(), components: None };
    let diff = RootDiff {
        fragment: FragmentDiff::UpdateRegular { children: vec![] },
        components: Some(vec![(5, ComponentDiff::UpdateRegular { children: vec![] })]),
    };
    assert_eq!(root.merge(diff), Err(MergeError::CreateComponentFromUpdate));
    assert_eq!(MergeError::AddChildToExisting.to_string(), "Add child to existing");
}

#[test]
fn new_child_from_update() {
    let upd = ChildDiff::Fragment(FragmentDiff::UpdateRegular { children: vec![] });
    assert_eq!(upd.to_new_child(), Err(MergeError::FragmentTypeMismatch));
    let comp = ChildDiff::Fragment(FragmentDiff::UpdateComprehension {
        dynamics: vec![vec![ChildDiff::ComponentID(2)]],
        templates: None,
        statics: None,
    });
    assert_eq!(
        comp.to_new_child(),
        Ok(Child::Fragment(Fragment::Comprehension {
            dynamics: vec![vec![Child::ComponentID(2)]],
            statics: None,
            templates: None,
        }))
    );
    let upd_comp = ComponentDiff::UpdateRegular { children: vec![] };
    assert_eq!(upd_comp.to_new_component(), Err(MergeError::CreateComponentFromUpdate));
}

#[test]
fn child_statics_offered_to_cousins() {
    let reg = Child::Fragment(Fragment::Regular { children: vec![], statics: Statics::Statics(strings(&["s"])) });
    assert_eq!(reg.statics(), Some(strings(&["s"])));
    let by_ref = Child::Fragment(Fragment::Comprehension { dynamics: vec![], statics: Some(Statics::TemplateRef(0)), templates: None });
    assert_eq!(by_ref.statics(), None);
    assert_eq!(text("t").statics(), None);
}

#[test]
fn render_error_variants() {
    assert_eq!(Child::ComponentID(1).render(&None, None, None), Err(RenderError::NoComponents));
    let pool = Some(vec![(1, inline_component(vec![], &["x"]))]);
    assert_eq!(Child::ComponentID(7).render(&pool, None, None), Err(RenderError::ComponentNotFound(7)));
    let tref = |t: Option<Vec<(i32, Vec<String>)>>| Fragment::Comprehension {
        dynamics: vec![],
        statics: Some(Statics::TemplateRef(3)),
        templates: t,
    };
    assert_eq!(tref(None).render(&None, None, None), Err(RenderError::NoTemplates));
    assert_eq!(
        tref(Some(vec![(0, strings(&["a"]))])).render(&None, None, None),
        Err(RenderError::TemplateNotFound(3))
    );
    let bad = Fragment::Regular { children: vec![(0, text("a"))], statics: Statics::Statics(strings(&["a", "b", "c"])) };
    assert_eq!(bad.render(&None, None, None), Err(RenderError::ArityMismatch));
    let missing_key = Fragment::Regular { children: vec![(1, text("a"))], statics: Statics::Statics(strings(&["a", "b"])) };
    assert_eq!(missing_key.render(&None, None, None), Err(RenderError::ArityMismatch));
    let both = Fragment::Comprehension { dynamics: vec![], statics: Some(Statics::Statics(strings(&["a"]))), templates: None };
    assert_eq!(both.render(&None, Some(strings(&["b"])), None), Err(RenderError::StaticsConflict));
    let reg_ref = Fragment::Regular { children: vec![], statics: Statics::TemplateRef(0) };
    assert_eq!(reg_ref.render(&None, None, None), Err(RenderError::UnexpectedTemplateRef));
    let looped = Some(vec![
        (1, Component { children: vec![], statics: ComponentStatics::ComponentRef(2) }),
        (2, Component { children: vec![], statics: ComponentStatics::ComponentRef(1) }),
    ]);
    assert!(matches!(Child::ComponentID(1).render(&looped, None, None), Err(RenderError::ComponentCycle(_))));
    let nested = Some(vec![(1, inline_component(vec![(0, Child::ComponentID(1))], &["<", ">"]))]);
    assert_eq!(Child::ComponentID(1).render(&nested, None, None), Err(RenderError::ComponentCycle(1)));
    assert_eq!(RenderError::from(MergeError::FragmentTypeMismatch), RenderError::MergeError(MergeError::FragmentTypeMismatch));
    assert_eq!(RenderError::NoTemplates.to_string(), "No templates");
}

#[test]
fn comprehension_row_length_must_fit_statics() {
    let f = Fragment::Comprehension {
        dynamics: vec![vec![text("a"), text("b")]],
        statics: Some(Statics::Statics(strings(&["<", ">"]))),
        templates: None,
    };
    assert_eq!(f.render(&None, None, None), Err(RenderError::ArityMismatch));
    let plain = Fragment::Comprehension { dynamics: vec![vec![text("a"), text("b")], vec![text("c")]], statics: None, templates: None };
    assert_eq!(plain.render(&None, None, None).unwrap(), "abc");
}

#[test]
fn decode_error_variants() {
    assert_eq!(decode_fragment_diff(&Json::Int(1)), Err(DecodeError::NotAnObject));
    assert_eq!(decode_fragment_diff(&obj(vec![("x", Json::Int(1))])), Err(DecodeError::UnknownKey));
    assert_eq!(decode_fragment_diff(&obj(vec![("01", Json::Int(1))])), Err(DecodeError::UnknownKey));
    assert_eq!(decode_fragment_diff(&obj(vec![("-1", Json::Int(1))])), Err(DecodeError::UnknownKey));
    assert_eq!(decode_fragment_diff(&obj(vec![("s", Json::Bool(true))])), Err(DecodeError::BadValue));
    assert_eq!(decode_fragment_diff(&obj(vec![("p", obj(vec![]))])), Err(DecodeError::UnknownKey));
    assert_eq!(
        decode_fragment_diff(&obj(vec![("d", Json::Array(vec![])), ("0", Json::Int(1))])),
        Err(DecodeError::UnknownKey)
    );
    assert_eq!(decode_fragment_diff(&obj(vec![("0", Json::Real)])), Err(DecodeError::BadValue));
    assert_eq!(decode_root_diff(&obj(vec![("c", obj(vec![("x", obj(vec![]))]))])), Err(DecodeError::UnknownKey));
    assert_eq!(decode_fragment_diff(&obj(vec![("c", Json::Null)])), Err(DecodeError::UnknownKey));
}

#[test]
fn decode_keys_and_ids() {
    let j = obj(vec![("12", Json::Int(-3)), ("s", Json::Int(7))]);
    let out = decode_fragment_diff(&j).unwrap();
    assert_eq!(
        out,
        FragmentDiff::ReplaceCurrent(Fragment::Regular {
            children: vec![(12, Child::ComponentID(-3))],
            statics: Statics::TemplateRef(7),
        })
    );
    let root = decode_root_diff(&obj(vec![("c", obj(vec![("-2", obj(vec![("s", jstrs(&["z"]))]))]))])).unwrap();
    assert_eq!(
        root,
        RootDiff {
            fragment: FragmentDiff::UpdateRegular { children: vec![] },
            components: Some(vec![(-2, ComponentDiff::ReplaceCurrent { children: vec![], statics: ComponentStatics::Statics(strings(&["z"])) })]),
        }
    );
}

#[test]
fn first_diff_without_statics_gets_blank_statics_around_children() {
    let diff = FragmentDiff::UpdateRegular { children: vec![(0, ChildDiff::String("a".into()))] };
    assert_eq!(
        Fragment::from_diff(diff),
        Ok(Fragment::Regular { children: vec![(0, text("a"))], statics: Statics::Statics(strings(&["", ""])) })
    );
    let rendered = Fragment::from_diff(FragmentDiff::UpdateRegular {
        children: vec![(0, ChildDiff::String("a".into())), (1, ChildDiff::String("b".into()))],
    })
    .unwrap()
    .render(&None, None, None);
    assert_eq!(rendered.unwrap(), "ab");
    let bad = RootDiff {
        fragment: FragmentDiff::UpdateRegular { children: vec![] },
        components: Some(vec![(1, ComponentDiff::UpdateRegular { children: vec![] })]),
    };
    assert_eq!(Root::from_diff(bad), Err(MergeError::CreateComponentFromUpdate));
}

#[test]
fn cousin_statics_from_regular_sibling() {
    let pool = Some(vec![
        (1, Component {
            children: vec![(0, Child::Fragment(Fragment::Regular { children: vec![(0, text("a"))], statics: Statics::Statics(strings(&["[", "]"])) }))],
            statics: ComponentStatics::Statics(strings(&["<", ">"])),
        }),
        (2, Component {
            children: vec![(0, Child::Fragment(Fragment::Comprehension { dynamics: vec![vec![text("x")], vec![text("y")]], statics: None, templates: None }))],
            statics: ComponentStatics::ComponentRef(1),
        }),
    ]);
    assert_eq!(Child::ComponentID(2).render(&pool, None, None).unwrap(), "<[x][y]>");
}

#[test]
fn snapshot_merge_matches_fresh_decode() {
    let first = r#"{"0": "a", "1": "b", "s": ["<", "|", ">"]}"#;
    let snapshot = r#"{"0": "x", "s": ["[", "]"]}"#;
    let parse = |t: &str| {
        let v: serde_json::Value = serde_json::from_str(t).unwrap();
        decode_root_diff(&from_value(&v)).unwrap()
    };
    let folded = Root::from_diff(parse(first)).unwrap().merge(parse(snapshot)).unwrap();
    let fresh = Root::from_diff(parse(snapshot)).unwrap();
    assert_eq!(folded, fresh);
    assert_eq!(folded.render().unwrap(), "[x]");
}

#[test]
fn replacing_root_update_merged_twice_is_stable() {
    let diff = || RootDiff {
        fragment: FragmentDiff::ReplaceCurrent(Fragment::Regular {
            children: vec![(0, Child::ComponentID(1))],
            statics: Statics::Statics(strings(&["(", ")"])),
        }),
        components: Some(vec![(
            1,
            ComponentDiff::ReplaceCurrent { children: vec![], statics: ComponentStatics::Statics(strings(&["c"])) },
        )]),
    };
    let start = Root {
        fragment: Fragment::Regular { children: vec![], statics: Statics::Statics(strings(&[""])) },
        components: Some(vec![(2, inline_component(vec![], &["kept"]))]),
    };
    let once = start.merge(diff()).unwrap();
    let twice = Root::merge(
        Root {
            fragment: Fragment::Regular {
                children: vec![(0, Child::ComponentID(1))],
                statics: Statics::Statics(strings(&["(", ")"])),
            },
            components: Some(vec![
                (2, inline_component(vec![], &["kept"])),
                (1, inline_component(vec![], &["c"])),
            ]),
        },
        diff(),
    )
    .unwrap();
    assert_eq!(once, twice);
    assert_eq!(twice.render().unwrap(), "(c)");
}

#[test]
fn component_id_renders_as_its_component() {
    let pool = Some(vec![
        (1, inline_component(vec![(0, Child::ComponentID(2))], &["<", ">"])),
        (2, inline_component(vec![(0, Child::ComponentID(1))], &["[", "]"])),
    ]);
    let (_, c1) = &pool.as_ref().unwrap()[0];
    assert_eq!(Child::ComponentID(1).render(&pool, None, None), c1.to_string_with_components(&pool));
    let fine = Some(vec![
        (1, inline_component(vec![(0, Child::ComponentID(2))], &["<", ">"])),
        (2, inline_component(vec![(0, text("x"))], &["[", "]"])),
    ]);
    let (_, f1) = &fine.as_ref().unwrap()[0];
    assert_eq!(Child::ComponentID(1).render(&fine, None, None).unwrap(), "<[x]>");
    assert_eq!(f1.to_string_with_components(&fine).unwrap(), "<[x]>");
}
