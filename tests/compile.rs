use decaff::actions::Prompt;
use decaff::config::{compile, compile_single, kind_of, ActionKind, ActionSingle, Actions, ConfigError, Replacement};
use decaff::document::{Document, Entry, Node, Scalar, Span};

fn span(offset: usize, len: usize) -> Span {
    Span { offset, len }
}

fn arg(v: Scalar) -> Entry {
    Entry { name: None, value: v, span: span(0, 1) }
}

fn prop(k: &str, v: Scalar) -> Entry {
    Entry { name: Some(k.to_string()), value: v, span: span(0, 1) }
}

fn text(s: &str) -> Scalar {
    Scalar::Text(s.to_string())
}

fn node(name: &str, entries: Vec<Entry>, children: Option<Vec<Node>>) -> Node {
    Node { name: name.to_string(), name_span: span(10, name.len()), entries, children, span: span(10, 40) }
}

fn doc(actions: Vec<Node>) -> Document {
    Document { nodes: vec![node("actions", vec![], Some(actions))] }
}

#[test]
fn mixed_actions_are_refused() {
    let d = doc(vec![
        node("suite", vec![arg(text("a"))], Some(vec![])),
        node("echo", vec![arg(text("hi"))], None),
    ]);
    assert!(matches!(compile(&d), Err(ConfigError::MixedActions)));
}

#[test]
fn flat_actions_compile_in_order() {
    let d = doc(vec![
        node("cp", vec![prop("from", text("*.txt")), prop("to", text("out"))], None),
        node("MV", vec![prop("from", text("a")), prop("to", text("b")), prop("overwrite", Scalar::Boolean(false))], None),
        node("rm", vec![arg(text("tmp"))], None),
    ]);
    let (options, actions) = compile(&d).unwrap();
    assert!(options.delete);
    match actions {
        Actions::Flat(v) => {
            assert_eq!(v.len(), 3);
            match &v[0] {
                ActionSingle::Copy(c) => {
                    assert_eq!(c.from, "*.txt");
                    assert_eq!(c.to, "out");
                    assert!(c.overwrite);
                },
                _ => panic!("expected copy"),
            }
            match &v[1] {
                ActionSingle::Move(m) => assert!(!m.overwrite),
                _ => panic!("expected move"),
            }
            match &v[2] {
                ActionSingle::Delete(d) => assert_eq!(d.target, "tmp"),
                _ => panic!("expected delete"),
            }
        },
        _ => panic!("expected flat actions"),
    }
}

#[test]
fn suites_compile_with_requirements() {
    let d = doc(vec![
        node("suite", vec![arg(text("a")), prop("requires", text("b  c"))], Some(vec![node("echo", vec![arg(text("A"))], None)])),
        node("suite", vec![arg(text("b"))], None),
    ]);
    match compile(&d).unwrap().1 {
        Actions::Suite(v) => {
            assert_eq!(v[0].name, "a");
            assert_eq!(v[0].requirements, vec!["b".to_string(), "c".to_string()]);
            assert_eq!(v[0].actions.len(), 1);
            assert!(v[1].requirements.is_empty());
        },
        _ => panic!("expected suites"),
    }
}

#[test]
fn empty_document_has_no_actions() {
    let d = Document { nodes: vec![] };
    let (options, actions) = compile(&d).unwrap();
    assert!(options.delete);
    assert!(matches!(actions, Actions::Empty));
}

#[test]
fn delete_option_is_read() {
    let d = Document { nodes: vec![node("options", vec![], Some(vec![node("delete", vec![arg(Scalar::Boolean(false))], None)]))] };
    assert!(!compile(&d).unwrap().0.delete);
}

#[test]
fn delete_option_without_boolean_is_refused() {
    let d = Document { nodes: vec![node("options", vec![], Some(vec![node("Delete", vec![arg(text("no"))], None)]))] };
    assert!(matches!(compile(&d), Err(ConfigError::MissingBoolean { at }) if at == span(10, 40)));
}

#[test]
fn missing_attribute_names_the_key() {
    let n = node("copy", vec![prop("from", text("a"))], None);
    match compile_single(&n) {
        Err(ConfigError::MissingAttribute { key, at }) => {
            assert_eq!(key, "to");
            assert_eq!(at, span(10, 40));
        },
        _ => panic!("expected a missing attribute"),
    }
}

#[test]
fn missing_argument_points_at_the_name() {
    let n = node("echo", vec![prop("trim", Scalar::Boolean(false))], None);
    assert!(matches!(compile_single(&n), Err(ConfigError::MissingArgument { at }) if at == span(10, 4)));
}

#[test]
fn prompt_problems() {
    let no_children = node("input", vec![arg(text("name"))], None);
    assert!(matches!(compile_single(&no_children), Err(ConfigError::MissingChildren { .. })));

    let no_hint = node("input", vec![arg(text("name"))], Some(vec![]));
    assert!(matches!(compile_single(&no_hint), Err(ConfigError::MissingHint { .. })));

    let no_options = node("select", vec![arg(text("pm"))], Some(vec![node("hint", vec![arg(text("Pick"))], None)]));
    assert!(matches!(compile_single(&no_options), Err(ConfigError::MissingOptions { .. })));

    let bad_option = node("select", vec![arg(text("pm"))], Some(vec![
        node("hint", vec![arg(text("Pick"))], None),
        node("options", vec![arg(text("npm")), Entry { name: None, value: Scalar::Boolean(true), span: span(30, 4) }], None),
    ]));
    assert!(matches!(compile_single(&bad_option), Err(ConfigError::InvalidOptionType { at }) if at == span(30, 4)));
}

#[test]
fn select_prompt_compiles() {
    let n = node("select", vec![arg(text("pm"))], Some(vec![
        node("hint", vec![arg(text("Pick"))], None),
        node("options", vec![arg(text("npm")), arg(Scalar::Integer(-3)), arg(Scalar::Decimal("1.5".to_string()))], None),
    ]));
    match compile_single(&n) {
        Ok(ActionSingle::Prompt(Prompt::Select(p))) => {
            assert_eq!(p.name, "pm");
            assert_eq!(p.hint, "Pick");
            assert_eq!(p.options, vec!["npm".to_string(), "-3".to_string(), "1.5".to_string()]);
        },
        _ => panic!("expected a select prompt"),
    }
}

#[test]
fn echo_injects_are_read() {
    let n = node("echo", vec![arg(text("Hello {A}"))], Some(vec![node("inject", vec![arg(text("A")), arg(text("A")), arg(text("B"))], None)]));
    match compile_single(&n) {
        Ok(ActionSingle::Echo(e)) => {
            assert!(e.trim);
            let mut inj = e.injects.unwrap();
            inj.sort();
            assert_eq!(inj, vec!["A".to_string(), "B".to_string()]);
        },
        _ => panic!("expected echo"),
    }
}

#[test]
fn replace_and_unknown_compile() {
    let n = node("replace", vec![prop("in", text("**/*.md"))], Some(vec![node("NAME", vec![], None), node("NAME", vec![], None)]));
    match compile_single(&n) {
        Ok(ActionSingle::Replace(r)) => {
            assert_eq!(r.replacements, vec!["NAME".to_string()]);
            assert_eq!(r.glob, Some("**/*.md".to_string()));
        },
        _ => panic!("expected replace"),
    }
    match compile_single(&node("Frobnicate", vec![], None)) {
        Ok(ActionSingle::Unknown(u)) => assert_eq!(u.name, "frobnicate"),
        _ => panic!("expected unknown"),
    }
}

#[test]
fn kinds_ignore_case() {
    assert_eq!(kind_of("CP"), ActionKind::Copy);
    assert_eq!(kind_of("Delete"), ActionKind::Delete);
    assert_eq!(kind_of("suite"), ActionKind::Unknown);
}

#[test]
fn replacement_falls_back_to_tag() {
    let r = Replacement::from_node(&node("TAG", vec![], None));
    assert_eq!(r.description, "TAG");
    let r = Replacement::from_node(&node("TAG", vec![arg(text("A tag"))], None));
    assert_eq!(r.description, "A tag");
}
