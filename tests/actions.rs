use decaff::actions::{file_name_of, join, merge_applied, messages, Delete, Echo, Move, Replace, Run};
use decaff::traverser::Traverser;
use decaff::value::{Number, State, Value};

fn state(pairs: &[(&str, &str)]) -> State {
    let mut s = State::new();
    for (k, v) in pairs {
        s.set(k, Value::String(v.to_string()));
    }
    s
}

#[test]
fn copy_matches_only_the_pattern() {
    let t = Traverser::new("root").ignore_dirs(true).contents_first(true).pattern("*.txt");
    let a = t.check("root/a.txt", false).unwrap();
    assert_eq!(a.captured, "a.txt");
    assert!(t.check("root/b.txt", false).is_some());
    assert!(t.check("root/c.md", false).is_none());
    let copy = decaff::actions::Copy { from: "*.txt".to_string(), to: "out".to_string(), overwrite: true };
    assert_eq!(copy.target("root", &a.path), Some("root/out/a.txt".to_string()));
    assert_eq!(copy.target("root", "root/b.txt"), Some("root/out/b.txt".to_string()));
}

#[test]
fn traverser_without_pattern_matches_all() {
    let t = Traverser::new("root");
    let m = t.check("root/x/y", true).unwrap();
    assert_eq!(m.captured, "root/x/y");
    let t = Traverser::new("root").ignore_dirs(true);
    assert!(t.check("root/x", true).is_none());
    assert!(t.check("root/x/y", false).is_some());
}

#[test]
fn overwrite_decides_transfer() {
    let copy = decaff::actions::Copy { from: "a".to_string(), to: "b".to_string(), overwrite: false };
    assert!(!copy.should_transfer(true));
    assert!(copy.should_transfer(false));
    let mv = Move { from: "a".to_string(), to: "b".to_string(), overwrite: true };
    assert!(mv.should_transfer(true));
}

#[test]
fn replace_twice_writes_once() {
    let r = Replace { replacements: vec!["NAME".to_string(), "N".to_string()], glob: None };
    let mut s = state(&[("NAME", "arx")]);
    s.set("N", Value::Number(Number::Integer(42)));
    let first = r.apply("# {NAME} v{N} {NAME}", &s);
    assert_eq!(first.text, "# arx v42 arx");
    assert!(first.should_write());
    assert_eq!(first.applied, vec![true, true]);
    let second = r.apply(&first.text, &s);
    assert_eq!(second.text, first.text);
    assert!(!second.should_write());
}

#[test]
fn replace_without_value_leaves_file() {
    let r = Replace { replacements: vec!["MISSING".to_string()], glob: None };
    let out = r.apply("keep {MISSING} here", &State::new());
    assert_eq!(out.text, "keep {MISSING} here");
    assert_eq!(out.applied, vec![false]);
    assert!(!out.should_write());
}

#[test]
fn applied_names_merge_across_files() {
    let mut acc = vec![false, true, false];
    merge_applied(&mut acc, &vec![true, false, false]);
    assert_eq!(acc, vec![true, true, false]);
}

#[test]
fn echo_trims_unindents_and_injects() {
    let e = Echo { message: "\n    Hello {WHO}\n      and {OTHER}\n".to_string(), injects: Some(vec!["WHO".to_string()]), trim: true };
    let s = state(&[("WHO", "world"), ("OTHER", "x")]);
    assert_eq!(e.render(&s), "Hello world\nand {OTHER}");
}

#[test]
fn run_injects_only_listed_names() {
    let r = Run { name: None, command: "{PM} install {ARGS}".to_string(), injects: Some(vec!["PM".to_string()]) };
    let s = state(&[("PM", "pnpm"), ("ARGS", "-D")]);
    assert_eq!(r.command_with(&s), "pnpm install {ARGS}");
    let plain = Run { name: None, command: "{PM} i".to_string(), injects: None };
    assert_eq!(plain.command_with(&s), "{PM} i");
}

#[test]
fn state_keeps_last_write() {
    let mut s = state(&[("A", "1")]);
    s.set("A", Value::Bool(true));
    match s.get("A") {
        Some(Value::Bool(b)) => assert!(*b),
        _ => panic!("expected a boolean"),
    }
    assert!(s.get("B").is_none());
}

#[test]
fn values_render() {
    assert_eq!(Value::Number(Number::Integer(-17)).render(), "-17");
    assert_eq!(Value::Number(Number::Float("2.5".to_string())).render(), "2.5");
    assert_eq!(Value::Bool(false).render(), "false");
    assert_eq!(Value::String("s".to_string()).render(), "s");
}

#[test]
fn paths_join_and_name() {
    assert_eq!(join("a", "b"), "a/b");
    assert_eq!(join("a/", "b"), "a/b");
    assert_eq!(join("a", "/b"), "/b");
    assert_eq!(join("", "b"), "b");
    assert_eq!(file_name_of("root/dir/file.txt"), Some("file.txt".to_string()));
    assert_eq!(file_name_of("root/.."), None);
}

#[test]
fn prompt_messages() {
    let (name, hint, help) = messages("R_NAME", "Project name");
    assert_eq!(name, "R_NAME");
    assert_eq!(hint, "Project name:");
    assert_eq!(help, "The answer will be mapped to: R_NAME");
}

#[test]
fn words_and_case() {
    assert_eq!(decaff::words::split_words(" a\tb  c\n"), vec!["a".to_string(), "b".to_string(), "c".to_string()]);
    assert_eq!(decaff::words::to_lower("MiXeD-1"), "mixed-1");
}

#[test]
fn run_display_name() {
    let named = Run { name: Some("Install".to_string()), command: "x".to_string(), injects: None };
    assert_eq!(named.display_name("npm i"), "Install");
    let r = Run { name: None, command: String::new(), injects: None };
    assert_eq!(r.display_name("npm i"), "npm i");
    assert_eq!(r.display_name("  npm i\r\n  npm test\n"), "npm i...");
}

#[test]
fn file_actions_walk_as_they_need() {
    let d = Delete { target: "*.tmp".to_string() };
    assert!(d.traverser("root").check("root/dir", true).is_none());
    assert!(d.traverser("root").check("root/a.tmp", false).is_some());
    let r = Replace { replacements: vec![], glob: None };
    let t = r.traverser("root");
    assert!(t.check("root/deep/file.txt", false).is_some());
    assert!(t.check("root/deep", true).is_none());
    let mv = Move { from: "src".to_string(), to: "lib".to_string(), overwrite: true };
    let m = mv.traverser("root").check("root/src", true).unwrap();
    assert_eq!(mv.target("root", &m.path), Some("root/lib/src".to_string()));
}
