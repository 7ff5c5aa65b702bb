use live_diff::{
    decode_component_diff, decode_fragment_diff, decode_root_diff, Child, ChildDiff, Component,
    ComponentDiff, ComponentStatics, Fragment, FragmentDiff, FragmentMerge, Json, Root, RootDiff,
    Statics,
};

fn to_json(v: &serde_json::Value) -> Json {
    match v {
        serde_json::Value::Null => Json::Null,
        serde_json::Value::Bool(b) => Json::Bool(*b),
        serde_json::Value::Number(n) => match n.as_i64() {
            Some(i) => Json::Int(i),
            None => Json::Real,
        },
        serde_json::Value::String(s) => Json::Str(s.clone()),
        serde_json::Value::Array(a) => Json::Array(a.iter().map(to_json).collect()),
        serde_json::Value::Object(o) => {
            Json::Object(o.iter().map(|(k, v)| (k.clone(), to_json(v))).collect())
        }
    }
}

fn parse(text: &str) -> Json {
    to_json(&serde_json::from_str(text).expect("invalid JSON"))
}

fn strings(v: &[&str]) -> Vec<String> {
    v.iter().map(|s| s.to_string()).collect()
}

fn root_of(text: &str) -> Root {
    let diff = decode_root_diff(&parse(text)).expect("Failed to deserialize fragment");
    Root::from_diff(diff).expect("Failed to convert RootDiff to Root")
}

#[test]
fn test_replace() {
    let current = Fragment::Regular {
        children: vec![(1, Child::String("a".into()))],
        statics: Statics::Statics(strings(&["b", "c"])),
    };
    let new = Fragment::Regular {
        children: vec![(1, Child::String("foo".into()))],
        statics: Statics::Statics(strings(&["bar", "baz"])),
    };
    let diff = FragmentDiff::ReplaceCurrent(Fragment::Regular {
        children: vec![(1, Child::String("foo".into()))],
        statics: Statics::Statics(strings(&["bar", "baz"])),
    });
    let merge = current.merge(diff).expect("Failed to merge diff");
    assert_eq!(merge, new);
}

#[test]
fn fragment_render_parse() {
    let root = Root {
        fragment: Fragment::Regular {
            children: vec![(0, Child::String("foo".into())), (1, Child::ComponentID(1))],
            statics: Statics::Statics(strings(&["1", "2", "3"])),
        },
        components: Some(vec![(
            1,
            Component {
                children: vec![(0, Child::String("bar".into()))],
                statics: ComponentStatics::Statics(strings(&["4", "5"])),
            },
        )]),
    };
    let expected = "1foo24bar53";
    let out: String = root.render().expect("Failed to render root");
    assert_eq!(out, expected);
}

const THERMOSTAT: &str = r#"{
  "0": "cooling",
  "1": "cooling",
  "2": "07:15:03 PM",
  "s": [
    "<div class=\"thermostat\">\n  <div class=\"bar ",
    "\">\n    <a href=\"\\#\" phx-click=\"toggle-mode\">",
    "</a>\n    <span>",
    "</span>\n  </div>\n</div>\n"
  ]
}"#;

#[test]
fn simple_diff_render() {
    let expected = r#"<div class="thermostat">
  <div class="bar cooling">
    <a href="\#" phx-click="toggle-mode">cooling</a>
    <span>07:15:03 PM</span>
  </div>
</div>
"#;
    let root = root_of(THERMOSTAT);
    let out: String = root.render().expect("Failed to convert Root into string");
    assert_eq!(out, expected);
}

#[test]
fn simple_diff_merge_and_render() {
    let root = root_of(THERMOSTAT);
    let root_diff = decode_root_diff(&parse(r#"{"2": "07:15:04 PM"}"#))
        .expect("Failed to deserialize fragment");
    let root = root.merge(root_diff).expect("Failed to merge diff into root");
    let out: String = root.render().expect("Failed to convert Root into string");
    let expected = r#"<div class="thermostat">
  <div class="bar cooling">
    <a href="\#" phx-click="toggle-mode">cooling</a>
    <span>07:15:04 PM</span>
  </div>
</div>
"#;
    assert_eq!(out, expected);
}

#[test]
fn json_to_fragment_to_string() {
    let fragment_json = r#"
{
  "0": {
    "d": [
          ["foo", {"d": [["0", 1], ["1", 2]], "s": 0}],
          ["bar", {"d": [["0", 3], ["1", 4]], "s": 0}]
    ],
    "s": ["\n  <p>\n    ", "\n    ", "\n  </p>\n"],
    "p": {"0": ["<span>", ": ", "</span>"]}
  },
  "c": {
    "1": {"0": "index_1", "1": "world", "s": ["<b>FROM ", " ", "</b>"]},
    "2": {"0": "index_2", "1": "world", "s": 1},
    "3": {"0": "index_1", "1": "world", "s": 1},
    "4": {"0": "index_2", "1": "world", "s": 3}
  },
  "s": ["<div>", "</div>"]
}
"#;
    let root = root_of(fragment_json);
    let out: String = root.render().expect("Failed to convert Root into string");
    let expected = r#"<div>
  <p>
    foo
    <span>0: <b>FROM index_1 world</b></span><span>1: <b>FROM index_2 world</b></span>
  </p>

  <p>
    bar
    <span>0: <b>FROM index_1 world</b></span><span>1: <b>FROM index_2 world</b></span>
  </p>
</div>"#;
    assert_eq!(out, expected);
}

#[test]
fn fragment_with_components_with_static_component_refs() {
    let input_json = r#"
        {
            "0": {
                "0": {
                    "d": [[1], [2], [3]],
                    "s": ["\n  ", "\n"]
                },
                "s": ["", ""]
            },
            "c": {
                "1": {
                    "0": {
                        "d": [["3"], ["4"], ["5"]],
                        "s": ["\n    <Text>Item ", "</Text>\n"]
                    },
                    "s": ["<Group>\n", "\n</Group>"]
                },
                "2": {
                    "0": {
                        "d": [["6"], ["7"], ["8"]]
                    },
                    "s": 1
                },
                "3": {
                    "0": {
                        "d": [["9"], ["10"], ["11"]]
                    },
                    "s": 1
                }
            },
            "s": ["<div>", "</div>"]
        }"#;
    let root = root_of(input_json);
    let out: String = root.render().expect("Failed to convert Root into string");
    let expected = r#"<div>
  <Group>

    <Text>Item 3</Text>

    <Text>Item 4</Text>

    <Text>Item 5</Text>

</Group>

  <Group>

    <Text>Item 6</Text>

    <Text>Item 7</Text>

    <Text>Item 8</Text>

</Group>

  <Group>

    <Text>Item 9</Text>

    <Text>Item 10</Text>

    <Text>Item 11</Text>

</Group>
</div>"#;
    assert_eq!(out, expected);
}

#[test]
fn fragment_with_dynamic_component() {
    let input_json = r#"
        {
            "0": {
                "0": {
                    "d": [[1]],
                    "s": ["\n  ", "\n"]
                },
                "s": ["", ""]
            },
            "c": {
                "1": {
                    "0": {
                        "d": [["3"], ["4"], ["5"]],
                        "s": ["\n    <Text>Item ", "</Text>\n"]
                    },
                    "s": ["<Group>\n", "\n</Group>"]
                }
            },
            "s": ["<div>", "</div>"]
        }"#;
    let root = root_of(input_json);
    let out: String = root.render().expect("Failed to convert Root into string");
    let expected = r#"<div>
  <Group>

    <Text>Item 3</Text>

    <Text>Item 4</Text>

    <Text>Item 5</Text>

</Group>
</div>"#;
    assert_eq!(out, expected);
}

#[test]
fn deep_diff_merging() {
    let deep_diff1 = r#"{
  "0": {
    "0": {
      "d": [["user1058", "1"], ["user99", "1"]],
      "s": ["        <tr>\n          <td>", " (", ")</td>\n        </tr>\n"]
    },
    "s": [
      "  <table>\n    <thead>\n      <tr>\n        <th>Username</th>\n        <th></th>\n      </tr>\n    </thead>\n    <tbody>\n",
      "    </tbody>\n  </table>\n"
    ]
  },
  "1": {
    "d": [
      [
        "asdf_asdf",
        "asdf@asdf.com",
        "123-456-7890",
        "<a href=\"/users/1\">Show</a>",
        "<a href=\"/users/1/edit\">Edit</a>",
        "<a href=\"\\#\" phx-click=\"delete_user\" phx-value=\"1\">Delete</a>"
      ]
    ],
    "s": [
      "    <tr>\n      <td>",
      "</td>\n      <td>",
      "</td>\n      <td>",
      "</td>\n\n      <td>\n",
      "        ",
      "\n",
      "      </td>\n    </tr>\n"
    ]
  }
}"#;
    let root = root_of(deep_diff1);
    let deep_diff2 = r#"{
  "0": {
    "0": {
      "d": [["user1058", "2"]]
    }
  }
}"#;
    let root_diff = decode_root_diff(&parse(deep_diff2)).expect("Failed to deserialize fragment");
    let root = root.merge(root_diff).expect("Failed to merge root");
    let deep_diff_result = r#" {
  "0": {
    "0": {
      "d": [["user1058", "2"]],
      "s": ["        <tr>\n          <td>", " (", ")</td>\n        </tr>\n"]
    },
    "s": [
      "  <table>\n    <thead>\n      <tr>\n        <th>Username</th>\n        <th></th>\n      </tr>\n    </thead>\n    <tbody>\n",
      "    </tbody>\n  </table>\n"
    ]
  },
  "1": {
    "d": [
      [
        "asdf_asdf",
        "asdf@asdf.com",
        "123-456-7890",
        "<a href=\"/users/1\">Show</a>",
        "<a href=\"/users/1/edit\">Edit</a>",
        "<a href=\"\\#\" phx-click=\"delete_user\" phx-value=\"1\">Delete</a>"
      ]
    ],
    "s": [
      "    <tr>\n      <td>",
      "</td>\n      <td>",
      "</td>\n      <td>",
      "</td>\n\n      <td>\n",
      "        ",
      "\n",
      "      </td>\n    </tr>\n"
    ]
  }
}"#;
    let expected_root = root_of(deep_diff_result);
    assert_eq!(root, expected_root);
}

#[test]
fn simple() {
    let data = r#"
        {
            "1": "baz"
        }
        "#;
    let out = decode_fragment_diff(&parse(data));
    assert!(out.is_ok());
    let out = out.expect("Failed to deserialize");
    let expected = FragmentDiff::UpdateRegular {
        children: vec![(1, ChildDiff::String("baz".into()))],
    };
    assert_eq!(out, expected);
}

#[test]
fn simple_component_diff() {
    let diffs = vec![
        r#"{"0": "index_2", "1": "world", "s": 1}"#,
        r#"{"0": "index_1", "1": "world", "s": 1}"#,
        r#"{"0": "index_2", "1": "world", "s": 3}"#,
        r#"{"0": "index_1", "1": "world", "s": ["<b>FROM ", " ", "</b>"]}"#,
    ];
    for data in &diffs {
        let out = decode_component_diff(&parse(data));
        assert!(out.is_ok());
    }
}

#[test]
fn test_decode_simple() {
    let data = r#"
        {
            "0": "foo",
            "1": "bar",
            "s": [
                "a",
                "b"
            ]
        }
        "#;
    let out = decode_fragment_diff(&parse(data));
    assert!(out.is_ok());
    let out = out.expect("Failed to deserialize");
    let expected = FragmentDiff::ReplaceCurrent(Fragment::Regular {
        children: vec![(0, Child::String("foo".into())), (1, Child::String("bar".into()))],
        statics: Statics::Statics(strings(&["a", "b"])),
    });
    assert_eq!(out, expected);
}

#[test]
fn test_decode_comprehension_with_templates() {
    let data = r#"
        {
            "d": [
                ["foo", 1],
                ["bar", 1]
            ],
            "p": {
                "0": [
                    "\\n    bar ",
                    "\\n  "
                ]
            }
        }
        "#;
    let out = decode_fragment_diff(&parse(data));
    assert!(out.is_ok());
    let out = out.expect("Failed to deserialize");
    let expected = FragmentDiff::UpdateComprehension {
        dynamics: vec![
            vec![ChildDiff::String("foo".into()), ChildDiff::ComponentID(1)],
            vec![ChildDiff::String("bar".into()), ChildDiff::ComponentID(1)],
        ],
        statics: None,
        templates: Some(vec![(0, strings(&["\\n    bar ", "\\n  "]))]),
    };
    assert_eq!(out, expected);
}

#[test]
fn test_decode_comprehension_without_templates() {
    let data = r#"
        {
            "d": [
                ["foo", 1],
                ["bar", 1]
            ]
        }
        "#;
    let out = decode_fragment_diff(&parse(data));
    assert!(out.is_ok());
    let out = out.expect("Failed to deserialize");
    let expected = FragmentDiff::UpdateComprehension {
        dynamics: vec![
            vec![ChildDiff::String("foo".into()), ChildDiff::ComponentID(1)],
            vec![ChildDiff::String("bar".into()), ChildDiff::ComponentID(1)],
        ],
        statics: None,
        templates: None,
    };
    assert_eq!(out, expected);
}

#[test]
fn test_decode_component_diff() {
    let data = r#"
        {
            "0": {
                "0": 1
            },
            "c": {
                "1": {
                    "0": {
                        "d": [
                            ["0", "foo"],
                            ["1", "bar"]
                        ]
                    }
                }
            }
        }
        "#;
    let out = decode_root_diff(&parse(data));
    assert!(out.is_ok());
    let out = out.expect("Failed to deserialize");
    let expected = RootDiff {
        fragment: FragmentDiff::UpdateRegular {
            children: vec![(
                0,
                ChildDiff::Fragment(FragmentDiff::UpdateRegular {
                    children: vec![(0, ChildDiff::ComponentID(1))],
                }),
            )],
        },
        components: Some(vec![(
            1,
            ComponentDiff::UpdateRegular {
                children: vec![(
                    0,
                    ChildDiff::Fragment(FragmentDiff::UpdateComprehension {
                        dynamics: vec![
                            vec![ChildDiff::String("0".into()), ChildDiff::String("foo".into())],
                            vec![ChildDiff::String("1".into()), ChildDiff::String("bar".into())],
                        ],
                        statics: None,
                        templates: None,
                    }),
                )],
            },
        )]),
    };
    assert_eq!(out, expected);
}

#[test]
fn test_decode_root_diff() {
    let data = r#"
        {
            "0": {
                "0": 1
            }
        }
        "#;
    let out = decode_root_diff(&parse(data));
    assert!(out.is_ok());
    let out = out.expect("Failed to deserialize");
    let expected = RootDiff {
        fragment: FragmentDiff::UpdateRegular {
            children: vec![(
                0,
                ChildDiff::Fragment(FragmentDiff::UpdateRegular {
                    children: vec![(0, ChildDiff::ComponentID(1))],
                }),
            )],
        },
        components: None,
    };
    assert_eq!(out, expected);
}

#[test]
fn test_decode_component_with_dynamics_iterated() {
    let input = r#"
        {
            "0": {
                "0": {
                    "d": [[1], [2], [3]],
                    "s": ["\n  ", "\n"]
                },
                "s": ["", ""]
            },
            "c": {
                "1": {
                    "0": {
                        "d": [["1"], ["2"], ["3"]],
                        "s": ["\n    <Text>Item ", "</Text>\n  "]
                    },
                    "s": ["<Group>\n  ", "\n</Group>"]
                },
                "2": {
                    "0": {
                        "d": [["1"], ["2"], ["3"]]
                    },
                    "s": 1
                },
                "3": {
                    "0": {
                        "d": [["1"], ["2"], ["3"]]
                    },
                    "s": 1
                }
            },
            "s": ["", ""]
        }"#;
    let _root: RootDiff = decode_root_diff(&parse(input)).expect("Failed to deserialize fragment");
}
