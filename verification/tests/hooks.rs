use testkit::hook_args::Args;
use testkit::hook_args::QualifiedPath;
use testkit::hook_args::RawArgs;
use testkit::rewrite::is_test_attribute;
use testkit::rewrite::rewrite;
use testkit::rewrite::vanilla_test;
use testkit::rewrite::Annotation;
use testkit::rewrite::Stmt;
use testkit::rewrite::TestFunctionDescriptor;
use testkit::rewrite::TransformError;

fn path(segments: &[&str]) -> QualifiedPath {
    QualifiedPath { segments: segments.iter().map(|s| s.as_bytes().to_vec()).collect() }
}

fn annotation(segments: &[&str]) -> Annotation {
    Annotation {
        segments: segments.iter().map(|s| s.as_bytes().to_vec()).collect(),
        rest: Vec::new(),
    }
}

fn canonical_marker() -> Annotation {
    annotation(&["core", "prelude", "v1", "test"])
}

fn descriptor(attrs: Vec<Annotation>, body: Vec<Stmt>) -> TestFunctionDescriptor {
    TestFunctionDescriptor {
        attrs,
        vis: b"pub".to_vec(),
        sig: b"fn my_test()".to_vec(),
        body,
    }
}

fn marker_count(d: &TestFunctionDescriptor) -> usize {
    d.attrs.iter().filter(|a| is_test_attribute(a)).count()
}

#[test]
fn concrete_scenario() {
    let args = b"before = setup::init, after = teardown::cleanup";
    let input = descriptor(Vec::new(), vec![Stmt::Verbatim(b"assert(x);".to_vec())]);
    let out = testkit::rewrite::test(args, input).unwrap();
    assert_eq!(
        out.body,
        vec![
            Stmt::HookCall(path(&["setup", "init"])),
            Stmt::Verbatim(b"assert(x);".to_vec()),
            Stmt::HookCall(path(&["teardown", "cleanup"])),
        ]
    );
    assert_eq!(out.attrs, vec![canonical_marker()]);
    assert_eq!(marker_count(&out), 1);
    assert_eq!(out.vis, b"pub".to_vec());
    assert_eq!(out.sig, b"fn my_test()".to_vec());
}

#[test]
fn unknown_key_rejected() {
    let args = b"oops = some::fn";
    let input = descriptor(Vec::new(), vec![Stmt::Verbatim(b"assert(x);".to_vec())]);
    match testkit::rewrite::test(args, input) {
        Err(TransformError::UnknownHookKey(e)) => {
            assert_eq!(e.index, 0);
            assert_eq!(e.key, b"oops".to_vec());
        }
        other => panic!("expected an unknown-key error, got {:?}", other),
    }
}

#[test]
fn unknown_key_after_known_ones() {
    let args = b"before = a, after = b, setup = c";
    let input = descriptor(Vec::new(), Vec::new());
    match testkit::rewrite::test(args, input) {
        Err(TransformError::UnknownHookKey(e)) => {
            assert_eq!(e.index, 2);
            assert_eq!(e.key, b"setup".to_vec());
        }
        other => panic!("expected an unknown-key error, got {:?}", other),
    }
}

#[test]
fn empty_args_is_noop_wrap() {
    let marked = descriptor(
        vec![annotation(&["test"])],
        vec![Stmt::Verbatim(b"assert(1 == 1);".to_vec())],
    );
    let out = testkit::rewrite::test(b"", marked.clone()).unwrap();
    assert_eq!(out, marked);

    let unmarked = descriptor(Vec::new(), vec![Stmt::Verbatim(b"assert(1 == 1);".to_vec())]);
    let out = testkit::rewrite::test(b"   ", unmarked.clone()).unwrap();
    assert_eq!(out.body, unmarked.body);
    assert_eq!(out.vis, unmarked.vis);
    assert_eq!(out.sig, unmarked.sig);
    assert_eq!(out.attrs, vec![canonical_marker()]);
}

#[test]
fn marker_insertion_is_idempotent() {
    let marked = descriptor(
        vec![annotation(&["other"]), annotation(&["googletest", "test"])],
        vec![Stmt::Verbatim(b"work();".to_vec())],
    );
    let out = testkit::rewrite::test(b"before = setup::init", marked.clone()).unwrap();
    assert_eq!(out.attrs, marked.attrs);
    assert_eq!(marker_count(&out), 1);
}

#[test]
fn hook_order_is_preserved() {
    let args = b"before = a, after = c, before = b, after = d";
    let input = descriptor(Vec::new(), vec![Stmt::Verbatim(b"body();".to_vec())]);
    let out = testkit::rewrite::test(args, input).unwrap();
    assert_eq!(
        out.body,
        vec![
            Stmt::HookCall(path(&["a"])),
            Stmt::HookCall(path(&["b"])),
            Stmt::Verbatim(b"body();".to_vec()),
            Stmt::HookCall(path(&["c"])),
            Stmt::HookCall(path(&["d"])),
        ]
    );
}

#[test]
fn duplicate_hooks_each_invoke_once() {
    let args = b"before = setup::init, before = setup::init";
    let input = descriptor(Vec::new(), Vec::new());
    let out = testkit::rewrite::test(args, input).unwrap();
    assert_eq!(
        out.body,
        vec![
            Stmt::HookCall(path(&["setup", "init"])),
            Stmt::HookCall(path(&["setup", "init"])),
        ]
    );
}

#[test]
fn trailing_comma_is_allowed() {
    let args = b"before = setup::init,";
    let input = descriptor(Vec::new(), Vec::new());
    let out = testkit::rewrite::test(args, input).unwrap();
    assert_eq!(out.body, vec![Stmt::HookCall(path(&["setup", "init"]))]);
}

#[test]
fn malformed_args_are_parse_errors() {
    for bad in [
        &b"before"[..],
        b"before =",
        b"= setup::init",
        b"before = setup::",
        b"before = 1st",
        b"before = a, ,",
        b"before = a b",
        b"before == a",
    ] {
        let input = descriptor(Vec::new(), Vec::new());
        match testkit::rewrite::test(bad, input) {
            Err(TransformError::Parse(_)) => {}
            other => panic!(
                "expected a parse error for {:?}, got {:?}",
                String::from_utf8_lossy(bad),
                other
            ),
        }
    }
}

#[test]
fn raw_parse_preserves_record_order() {
    let raw = RawArgs::parse(b"before = a::b, after = c").unwrap();
    assert_eq!(raw.vars.len(), 2);
    assert_eq!(raw.vars[0].type_, b"before".to_vec());
    assert_eq!(raw.vars[0].fn_path, path(&["a", "b"]));
    assert_eq!(raw.vars[1].type_, b"after".to_vec());
    assert_eq!(raw.vars[1].fn_path, path(&["c"]));
}

#[test]
fn validate_routes_by_key() {
    let raw = RawArgs::parse(b"after = z, before = y").unwrap();
    let args = raw.validate().unwrap();
    assert_eq!(args.before, vec![path(&["y"])]);
    assert_eq!(args.after, vec![path(&["z"])]);
}

#[test]
fn rewrite_keeps_other_annotations() {
    let input = descriptor(
        vec![annotation(&["allow"]), annotation(&["ignore"])],
        vec![Stmt::Verbatim(b"work();".to_vec())],
    );
    let out = rewrite(input, Args { before: Vec::new(), after: Vec::new() });
    assert_eq!(
        out.attrs,
        vec![canonical_marker(), annotation(&["allow"]), annotation(&["ignore"])]
    );
}

#[test]
fn vanilla_test_adds_marker_only_once() {
    let unmarked = descriptor(Vec::new(), vec![Stmt::Verbatim(b"assert(2 + 2 == 4);".to_vec())]);
    let out = vanilla_test(unmarked.clone());
    assert_eq!(out.attrs, vec![canonical_marker()]);
    assert_eq!(out.body, unmarked.body);

    let marked = vanilla_test(out.clone());
    assert_eq!(marked, out);
    assert_eq!(marker_count(&marked), 1);
}

#[test]
fn is_test_attribute_checks_last_segment() {
    assert!(is_test_attribute(&annotation(&["test"])));
    assert!(is_test_attribute(&annotation(&["core", "prelude", "v1", "test"])));
    assert!(!is_test_attribute(&annotation(&["test", "extra"])));
    assert!(!is_test_attribute(&annotation(&["testing"])));
    assert!(!is_test_attribute(&Annotation { segments: Vec::new(), rest: Vec::new() }));
}
