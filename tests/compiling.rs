use hypr_rules::config::{compile_blocks, compile_config, read_blocks, LoadError, RuleBlock};
use hypr_rules::yaml::{scalar_entries, Node};
use hypr_rules::rules::Rule;
use hypr_rules::value::Scalar;

fn s(x: &str) -> String {
    x.to_string()
}

#[test]
fn follow_rule_binds_title_and_class() {
    let ms = vec![
        (s("follow-title"), Scalar::Bool(true)),
        (s("title"), Scalar::Str(s("Foo"))),
        (s("class"), Scalar::Str(s("Bar"))),
    ];
    let props = vec![(s("float"), Scalar::Bool(true)), (s("size"), Scalar::Str(s("800 600")))];
    let rule = Rule::new(None, &ms, &props).unwrap();
    let runtime = rule.static_properties.unwrap();
    assert_eq!(runtime.title, "Foo");
    assert_eq!(runtime.class, "Bar");
    assert_eq!(runtime.properties, vec![s("setfloating "), s("resizewindowpixel exact 800 600,")]);
}

#[test]
fn follow_rule_without_class_fails() {
    let ms = vec![(s("follow"), Scalar::Bool(true)), (s("title"), Scalar::Str(s("Foo")))];
    let r = Rule::new(None, &ms, &vec![]);
    assert!(matches!(r, Err(LoadError::MissingTitleOrClass)));
}

#[test]
fn follow_rule_without_title_fails() {
    let ms = vec![(s("follow-title"), Scalar::Bool(true)), (s("class"), Scalar::Str(s("Bar")))];
    let r = Rule::new(Some(s("named")), &ms, &vec![]);
    assert!(matches!(r, Err(LoadError::MissingTitleOrClass)));
}

#[test]
fn follow_false_needs_nothing() {
    let ms = vec![(s("follow-title"), Scalar::Bool(false)), (s("class"), Scalar::Str(s("Bar")))];
    let rule = Rule::new(None, &ms, &vec![]).unwrap();
    assert!(rule.static_properties.is_none());
}

#[test]
fn anonymous_rule_single_line() {
    let ms = vec![(s("class"), Scalar::Str(s("firefox")))];
    let props = vec![(s("float"), Scalar::Bool(true))];
    let rule = Rule::new(None, &ms, &props).unwrap();
    let lines = rule.compile();
    assert_eq!(lines.len(), 1);
    assert!(lines[0].ends_with("class:firefox"));
    assert!(lines[0].contains("float 1"));
    assert_eq!(lines[0], "windowrule = float 1, class:firefox");
}

#[test]
fn anonymous_rule_line_per_property() {
    let ms = vec![(s("class"), Scalar::Str(s("kitty"))), (s("title"), Scalar::Str(s("term")))];
    let props = vec![(s("opacity"), Scalar::Real(s("0.9"))), (s("dimaround"), Scalar::Bool(false))];
    let lines = Rule::new(None, &ms, &props).unwrap().compile();
    assert_eq!(
        lines,
        vec![
            s("windowrule = opacity 0.9, class:kitty,title:term"),
            s("windowrule = nodim, class:kitty,title:term"),
        ]
    );
}

#[test]
fn named_rule_block() {
    let ms = vec![(s("class"), Scalar::Str(s("kitty"))), (s("title"), Scalar::Str(s("term")))];
    let props = vec![(s("opacity"), Scalar::Str(s("0.9 0.8"))), (s("float"), Scalar::Bool(true))];
    let lines = Rule::new(Some(s("terminal")), &ms, &props).unwrap().compile();
    assert_eq!(
        lines,
        vec![s(
            "windowrule {\n  name = terminal\n  class = kitty\n  title = term\n\n  opacity = 0.9 0.8\n  float = 1\n}"
        )]
    );
}

#[test]
fn compile_blocks_skips_follow_rules_in_output() {
    let blocks = vec![
        RuleBlock {
            name: None,
            matches: vec![
                vec![(s("class"), Scalar::Str(s("a")))],
                vec![
                    (s("follow-title"), Scalar::Bool(true)),
                    (s("class"), Scalar::Str(s("b"))),
                    (s("title"), Scalar::Str(s("B"))),
                ],
            ],
            properties: vec![(s("float"), Scalar::Bool(true))],
        },
    ];
    let (lines, rules) = compile_blocks(&blocks).unwrap();
    assert_eq!(lines, vec![s("windowrule = float 1, class:a")]);
    assert_eq!(rules.len(), 1);
    assert_eq!(rules[0].class, "b");
    assert_eq!(rules[0].properties, vec![s("setfloating ")]);
}

const DOC: &str = "- match:\n    class: firefox\n  properties:\n    float: true\n    opacity: 0.8\n- name: term\n  match:\n    - class: kitty\n    - class: foot\n      follow-title: true\n      title: shell\n  properties:\n    move: 100,300\n    rounding: 4\n";

#[test]
fn compile_config_from_yaml() {
    let (lines, rules) = compile_config(DOC).unwrap();
    assert_eq!(
        lines,
        vec![
            s("windowrule = float 1, class:firefox"),
            s("windowrule = opacity 0.8, class:firefox"),
            s("windowrule {\n  name = term\n  class = kitty\n\n  move = 100,300\n  rounding = 4\n}"),
        ]
    );
    assert_eq!(rules.len(), 1);
    assert_eq!(rules[0].title, "shell");
    assert_eq!(rules[0].class, "foot");
    assert_eq!(rules[0].properties, vec![s("movewindowpixel exact 100,300,")]);
}

#[test]
fn compile_config_twice_is_identical() {
    let a = compile_config(DOC).unwrap();
    let b = compile_config(DOC).unwrap();
    assert_eq!(a.0, b.0);
    assert_eq!(a.1.len(), b.1.len());
    for (x, y) in a.1.iter().zip(b.1.iter()) {
        assert_eq!((&x.title, &x.class, &x.properties), (&y.title, &y.class, &y.properties));
    }
}

#[test]
fn compile_config_root_not_a_list() {
    assert!(matches!(compile_config("a: 1\n"), Err(LoadError::InvalidConfig)));
    assert!(matches!(compile_config(""), Err(LoadError::InvalidConfig)));
}

#[test]
fn compile_config_bad_yaml() {
    assert!(matches!(compile_config("- [unclosed\n"), Err(LoadError::Yaml(_))));
}

#[test]
fn compile_config_follow_missing_title() {
    let doc = "- match:\n    class: foot\n    follow-title: true\n  properties:\n    float: true\n";
    assert!(matches!(compile_config(doc), Err(LoadError::MissingTitleOrClass)));
}

#[test]
fn io_error_keeps_message() {
    let e = std::io::Error::new(std::io::ErrorKind::NotFound, "no such file");
    match LoadError::from_io(e) {
        LoadError::Io(m) => assert_eq!(m, "no such file"),
        other => panic!("unexpected {other:?}"),
    }
}

#[test]
fn read_blocks_from_nodes() {
    let item = Node::Mapping(vec![
        (Node::Str(s("name")), Node::Str(s("n"))),
        (
            Node::Str(s("match")),
            Node::List(vec![
                Node::Mapping(vec![(Node::Str(s("class")), Node::Str(s("a")))]),
                Node::Int(3),
            ]),
        ),
        (
            Node::Str(s("properties")),
            Node::Mapping(vec![
                (Node::Str(s("float")), Node::Bool(true)),
                (Node::Int(1), Node::Bool(true)),
                (Node::Str(s("nested")), Node::List(vec![])),
            ]),
        ),
    ]);
    let doc = Node::List(vec![item]);
    let blocks = read_blocks(&doc).unwrap();
    assert_eq!(blocks.len(), 1);
    assert_eq!(blocks[0].name, Some(s("n")));
    assert_eq!(blocks[0].matches.len(), 1);
    assert_eq!(blocks[0].properties.len(), 2);
    assert!(matches!(read_blocks(&Node::Int(1)), Err(LoadError::InvalidConfig)));
    assert!(scalar_entries(&Node::Other).is_none());
}
