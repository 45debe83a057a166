use hypr_rules::rules::{process_match, process_properties, StaticRules};
use hypr_rules::text::{find_in, indent_lines, join_with, replace_first_text};
use hypr_rules::value::{
    format_property, handle_bool_property, handle_property_field, int_to_text, scalar_text, Scalar,
};

fn s(x: &str) -> String {
    x.to_string()
}

#[test]
fn bool_false_is_field_zero() {
    for field in ["float", "tile", "noblur", "opaque", "pin"] {
        assert_eq!(handle_bool_property(field, false), format!("{field} 0"));
    }
}

#[test]
fn bool_false_dimaround_is_nodim() {
    assert_eq!(handle_bool_property("dimaround", false), "nodim");
}

#[test]
fn bool_false_allowsinput_is_explicit() {
    assert_eq!(handle_bool_property("allowsinput", false), "allowsinput 0");
}

#[test]
fn bool_true_is_field_one() {
    assert_eq!(handle_bool_property("dimaround", true), "dimaround 1");
    assert_eq!(handle_bool_property("float", true), "float 1");
}

#[test]
fn plugin_value_is_bare() {
    assert_eq!(handle_property_field("plugin", "hyprbars:nobar"), "hyprbars:nobar");
    assert_eq!(handle_property_field("opacity", "0.8 0.8"), "opacity 0.8 0.8");
}

#[test]
fn property_tokens_for_each_scalar() {
    assert_eq!(format_property("rounding", &Scalar::Int(10)), Some(s("rounding 10")));
    assert_eq!(format_property("rounding", &Scalar::Int(-42)), Some(s("rounding -42")));
    assert_eq!(format_property("opacity", &Scalar::Real(s("0.75"))), Some(s("opacity 0.75")));
    assert_eq!(format_property("float", &Scalar::Bool(true)), Some(s("float 1")));
    assert_eq!(format_property("move", &Scalar::Str(s("100 300"))), Some(s("move 100 300")));
    assert_eq!(format_property("nested", &Scalar::Other), None);
}

#[test]
fn integer_text_extremes() {
    assert_eq!(int_to_text(0), "0");
    assert_eq!(int_to_text(i64::MAX), i64::MAX.to_string());
    assert_eq!(int_to_text(i64::MIN), i64::MIN.to_string());
}

#[test]
fn scalar_text_of_each_kind() {
    assert_eq!(scalar_text(&Scalar::Bool(true)), "1");
    assert_eq!(scalar_text(&Scalar::Bool(false)), "0");
    assert_eq!(scalar_text(&Scalar::Int(7)), "7");
    assert_eq!(scalar_text(&Scalar::Real(s("1.5"))), "1.5");
    assert_eq!(scalar_text(&Scalar::Str(s("kitty"))), "kitty");
    assert_eq!(scalar_text(&Scalar::Other), "");
}

#[test]
fn static_verbs_follow_the_fixed_table() {
    let table = [
        ("float", "setfloating"),
        ("tile", "settiled"),
        ("fullscreen", "fullscreen"),
        ("maximize", "fullscreen 1"),
        ("move", "movewindowpixel exact"),
        ("size", "resizewindowpixel exact"),
        ("center", "centerwindow"),
        ("workspace", "movetoworkspace"),
        ("pin", "pin"),
    ];
    for (field, verb) in table {
        assert_eq!(StaticRules::command_from_str(field), Some(s(verb)));
    }
    assert_eq!(StaticRules::command_from_str("opacity"), None);
    assert_eq!(StaticRules::from_str("opacity"), StaticRules::Unlisted);
    assert_eq!(StaticRules::from_str("move"), StaticRules::Move);
}

#[test]
fn static_fragments_do_not_depend_on_order() {
    let a = vec![
        (s("move"), Scalar::Str(s("100,300"))),
        (s("float"), Scalar::Bool(true)),
        (s("opacity"), Scalar::Real(s("0.9"))),
        (s("workspace"), Scalar::Int(3)),
    ];
    let mut b: Vec<(String, Scalar)> = a.iter().rev().cloned().collect();
    let (_, fa) = process_properties(&a);
    let (_, fb) = process_properties(&b);
    assert_eq!(fa, vec![s("movewindowpixel exact 100,300,"), s("setfloating "), s("movetoworkspace 3,")]);
    let mut fb_sorted = fb.clone();
    fb_sorted.reverse();
    assert_eq!(fa, fb_sorted);
    b.swap(0, 1);
    let (_, fc) = process_properties(&b);
    assert_eq!(fc.len(), 3);
    assert!(fc.contains(&s("setfloating ")));
}

#[test]
fn parametric_fragment_round_trip() {
    for (field, verb) in [
        ("move", "movewindowpixel exact"),
        ("size", "resizewindowpixel exact"),
        ("workspace", "movetoworkspace"),
    ] {
        for (value, text) in [(Scalar::Str(s("100,300")), "100,300"), (Scalar::Int(42), "42")] {
            let (tokens, frags) = process_properties(&vec![(s(field), value)]);
            let frag = &frags[0];
            assert!(frag.starts_with(verb));
            assert!(frag.ends_with(','));
            assert_eq!(&frag[verb.len() + 1..frag.len() - 1], text);
            let (f, v) = tokens[0].split_once(' ').unwrap();
            assert_eq!((f, v), (field, text));
        }
    }
}

#[test]
fn parametric_fragment_skips_other_kinds() {
    let (tokens, frags) = process_properties(&vec![
        (s("move"), Scalar::Bool(true)),
        (s("size"), Scalar::Real(s("0.5"))),
        (s("center"), Scalar::Bool(true)),
        (s("pin"), Scalar::Other),
    ]);
    assert_eq!(tokens, vec![s("move 1"), s("size 0.5"), s("center 1")]);
    assert_eq!(frags, vec![s("centerwindow ")]);
}

#[test]
fn token_round_trip_for_each_scalar() {
    for (value, text) in [
        (Scalar::Str(s("abc")), "abc"),
        (Scalar::Int(12), "12"),
        (Scalar::Real(s("2.5")), "2.5"),
        (Scalar::Bool(true), "1"),
        (Scalar::Bool(false), "0"),
    ] {
        let token = format_property("rounding", &value).unwrap();
        assert_eq!(token.split_once(' '), Some(("rounding", text)));
    }
}

#[test]
fn match_clause_inline_and_named() {
    let ms = vec![
        (s("class"), Scalar::Str(s("firefox"))),
        (s("follow-title"), Scalar::Bool(true)),
        (s("title"), Scalar::Str(s("Mozilla Firefox"))),
        (s("workspace"), Scalar::Int(2)),
    ];
    let (inline, title, class) = process_match(&ms, false);
    assert_eq!(inline, "class:firefox,title:Mozilla Firefox,workspace:2");
    assert_eq!(title, Some(s("Mozilla Firefox")));
    assert_eq!(class, Some(s("firefox")));
    let (named, _, _) = process_match(&ms, true);
    assert_eq!(named, "class = firefox\ntitle = Mozilla Firefox\nworkspace = 2");
}

#[test]
fn match_clause_empty() {
    let (clause, title, class) = process_match(&vec![], false);
    assert_eq!(clause, "");
    assert_eq!(title, None);
    assert_eq!(class, None);
}

#[test]
fn text_helpers() {
    assert_eq!(replace_first_text("opacity 0.8 0.8", " ", " = "), "opacity = 0.8 0.8");
    assert_eq!(replace_first_text("nodim", " ", " = "), "nodim");
    assert_eq!(indent_lines("a\nb", "  "), "a\n  b");
    assert_eq!(join_with(&vec![s("a"), s("b"), s("c")], ", "), "a, b, c");
    assert_eq!(join_with(&vec![], ", "), "");
    let hay: Vec<char> = "ab>>c>>d".chars().collect();
    let pat: Vec<char> = ">>".chars().collect();
    assert_eq!(find_in(&hay, &pat), Some(2));
    assert_eq!(find_in(&pat, &hay), None);
}
