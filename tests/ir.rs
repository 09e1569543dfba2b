use ir_core::{
    Auth, Cache, CacheKey, DataLoaderId, Discriminator, EvalContext, FieldMap, FreshnessWindow,
    GroupBy, IoId, RequestTemplate, Segment, WorkerHooks, IO, IR,
};
use std::collections::hash_map::DefaultHasher;
use std::hash::Hasher;

fn window(secs: u64) -> FreshnessWindow {
    FreshnessWindow::new(secs).unwrap()
}

fn template(segments: Vec<Segment>) -> RequestTemplate {
    RequestTemplate { segments, cacheable: true }
}

fn http(path: &str) -> IO {
    IO::Http {
        req_template: template(vec![Segment::Literal(path.as_bytes().to_vec())]),
        group_by: Some(GroupBy { path: vec!["id".to_string()] }),
        dl_id: Some(DataLoaderId::new(3)),
        is_list: false,
        dedupe: true,
        hook: Some(WorkerHooks { on_request: Some("before".to_string()), on_response: None }),
    }
}

fn graphql(field: &str) -> IO {
    IO::GraphQL {
        req_template: template(vec![Segment::Literal(b"query".to_vec())]),
        field_name: field.to_string(),
        batch: false,
        dl_id: None,
        dedupe: false,
    }
}

fn js(name: &str) -> IO {
    IO::Js { name: name.to_string() }
}

fn leaf_name(io: &IO) -> String {
    match io {
        IO::Js { name } => name.clone(),
        IO::GraphQL { field_name, .. } => field_name.clone(),
        IO::Http { .. } => "http".to_string(),
        IO::Grpc { .. } => "grpc".to_string(),
    }
}

fn mark(io: IO) -> IO {
    match io {
        IO::Js { name } => IO::Js { name: format!("{}!", name) },
        IO::GraphQL { req_template, field_name, batch, dl_id, dedupe } => {
            IO::GraphQL { req_template, field_name: format!("{}!", field_name), batch, dl_id, dedupe }
        }
        other => other,
    }
}

/// The windows of the reachable leaves, in traversal order: `None` for a bare leaf.
fn leaf_windows(t: &IR, out: &mut Vec<Option<u64>>) {
    match t {
        IR::IO(_) => out.push(None),
        IR::Cache(c) => out.push(Some(c.max_age.get())),
        IR::Path(c, _) | IR::Protect(_, c) | IR::Discriminate(_, c) => leaf_windows(c, out),
        IR::FieldMap(m) => leaf_windows(&m.input, out),
        IR::Pipe(a, b) => {
            leaf_windows(a, out);
            leaf_windows(b, out);
        }
        IR::Merge(v) => v.iter().for_each(|c| leaf_windows(c, out)),
        IR::Entity(v) => v.iter().for_each(|(_, c)| leaf_windows(c, out)),
        _ => {}
    }
}

fn windows(t: &IR) -> Vec<Option<u64>> {
    let mut out = Vec::new();
    leaf_windows(t, &mut out);
    out
}

fn sample_tree() -> IR {
    IR::Pipe(
        Box::new(IR::IO(js("a"))),
        Box::new(IR::Merge(vec![
            IR::IO(graphql("b")),
            IR::Cache(Cache { max_age: window(7), io: Box::new(js("c")) }),
            IR::Entity(vec![(
                "User".to_string(),
                IR::Protect(
                    Auth { requirement: "admin".to_string() },
                    Box::new(IR::FieldMap(FieldMap {
                        input: Box::new(IR::IO(http("/users"))),
                        map: vec![("a".to_string(), "b".to_string())],
                    })),
                ),
            )]),
            IR::ContextPath(vec!["headers".to_string()]),
            IR::Service("type Query".to_string()),
            IR::Dynamic(async_graphql::Value::Null),
        ])),
    )
}

#[test]
fn dedupe_of_script_is_false() {
    assert!(!js("x").dedupe());
    assert!(http("/a").dedupe());
    assert!(!graphql("f").dedupe());
}

#[test]
fn identifiers_keep_their_values() {
    assert_eq!(DataLoaderId::new(42).as_usize(), 42);
    assert_eq!(IoId::new(9).as_u64(), 9);
    assert_eq!(IoId::new(9), IoId::new(9));
    assert_ne!(IoId::new(9), IoId::new(10));
}

#[test]
fn zero_window_is_rejected() {
    assert!(FreshnessWindow::new(0).is_none());
    assert_eq!(FreshnessWindow::new(30).unwrap().get(), 30);
}

#[test]
fn pipe_keeps_order() {
    let t = IR::IO(js("first")).pipe(IR::IO(js("second")));
    match t {
        IR::Pipe(a, b) => {
            assert!(matches!(*a, IR::IO(IO::Js { ref name }) if name == "first"));
            assert!(matches!(*b, IR::IO(IO::Js { ref name }) if name == "second"));
        }
        _ => panic!("expected a pipe"),
    }
}

#[test]
fn declining_rule_keeps_tree() {
    let t = sample_tree().modify(&|_: &IR| None);
    assert_eq!(format!("{:?}", t), format!("{:?}", sample_tree()));
}

#[test]
fn rule_replacement_is_not_revisited() {
    let rule = |e: &IR| match e {
        IR::Merge(_) => Some(IR::Merge(vec![IR::IO(js("inner"))])),
        IR::IO(_) => Some(IR::Service("replaced".to_string())),
        _ => None,
    };
    let t = sample_tree().modify(&rule);
    match t {
        IR::Pipe(a, b) => {
            assert!(matches!(*a, IR::Service(ref s) if s == "replaced"));
            match *b {
                IR::Merge(v) => {
                    assert_eq!(v.len(), 1);
                    assert!(matches!(v[0], IR::IO(_)));
                }
                _ => panic!("expected a merge"),
            }
        }
        _ => panic!("expected a pipe"),
    }
}

#[test]
fn rule_may_replace_cached_leaf() {
    let t = IR::Cache(Cache { max_age: window(5), io: Box::new(js("c")) });
    let r = t.modify(&|e: &IR| match e {
        IR::IO(_) => Some(IR::ContextPath(vec!["x".to_string()])),
        _ => None,
    });
    assert!(matches!(r, IR::ContextPath(ref p) if p.len() == 1));
}

#[test]
fn wrap_caches_every_reachable_leaf() {
    let before = windows(&sample_tree());
    assert_eq!(before, vec![None, None, Some(7), None]);
    let t = Cache::wrap(window(60), sample_tree());
    assert_eq!(windows(&t), vec![Some(60); 4]);
}

#[test]
fn wrap_keeps_entity_names_and_payloads() {
    let t = Cache::wrap(window(60), sample_tree());
    let IR::Pipe(a, b) = t else { panic!("expected a pipe") };
    assert!(matches!(*a, IR::Cache(ref c) if leaf_name(&c.io) == "a"));
    let IR::Merge(v) = *b else { panic!("expected a merge") };
    assert_eq!(v.len(), 6);
    assert!(matches!(v[1], IR::Cache(ref c) if leaf_name(&c.io) == "c"));
    match &v[2] {
        IR::Entity(entries) => {
            assert_eq!(entries[0].0, "User");
            assert!(matches!(entries[0].1, IR::Protect(ref auth, _) if auth.requirement == "admin"));
        }
        _ => panic!("expected an entity"),
    }
    assert!(matches!(v[4], IR::Service(ref s) if s == "type Query"));
}

#[test]
fn rewrap_overwrites_window() {
    let once = Cache::wrap(window(10), sample_tree());
    let twice = Cache::wrap(window(20), once);
    assert_eq!(windows(&twice), vec![Some(20); 4]);
    assert_eq!(
        format!("{:?}", twice),
        format!("{:?}", Cache::wrap(window(20), sample_tree()))
    );
}

#[test]
fn wrap_twice_is_wrap_once() {
    let once = Cache::wrap(window(10), sample_tree());
    let twice = Cache::wrap(window(10), Cache::wrap(window(10), sample_tree()));
    assert_eq!(format!("{:?}", once), format!("{:?}", twice));
}

#[test]
fn modify_io_reaches_nested_leaves() {
    let mut t = IR::Pipe(
        Box::new(IR::IO(js("a"))),
        Box::new(IR::Discriminate(
            Discriminator { types: vec!["A".to_string(), "B".to_string()] },
            Box::new(IR::Protect(
                Auth { requirement: "user".to_string() },
                Box::new(IR::Path(
                    Box::new(IR::Cache(Cache { max_age: window(3), io: Box::new(graphql("b")) })),
                    vec!["data".to_string()],
                )),
            )),
        )),
    );
    t.modify_io(&mark);
    let IR::Pipe(a, b) = t else { panic!("expected a pipe") };
    assert!(matches!(*a, IR::IO(ref io) if leaf_name(io) == "a!"));
    let IR::Discriminate(_, p) = *b else { panic!("expected a discriminator") };
    let IR::Protect(_, path) = *p else { panic!("expected a gate") };
    let IR::Path(cache, _) = *path else { panic!("expected a path") };
    let IR::Cache(c) = *cache else { panic!("expected a cache") };
    assert_eq!(leaf_name(&c.io), "b!");
    assert_eq!(c.max_age.get(), 3);
}

#[test]
fn modify_io_skips_merge_children() {
    let mut t = IR::Merge(vec![IR::IO(js("a")), IR::IO(js("b"))]);
    t.modify_io(&mark);
    let IR::Merge(v) = t else { panic!("expected a merge") };
    assert!(matches!(v[0], IR::IO(ref io) if leaf_name(io) == "a"));
    assert!(matches!(v[1], IR::IO(ref io) if leaf_name(io) == "b"));
}

#[test]
fn modify_io_reaches_entity_and_field_map() {
    let mut t = IR::Entity(vec![(
        "T".to_string(),
        IR::FieldMap(FieldMap { input: Box::new(IR::IO(js("e"))), map: vec![] }),
    )]);
    t.modify_io(&mark);
    let IR::Entity(v) = t else { panic!("expected an entity") };
    let IR::FieldMap(m) = &v[0].1 else { panic!("expected a field map") };
    assert!(matches!(*m.input, IR::IO(ref io) if leaf_name(io) == "e!"));
}

fn digest(parts: &[&[u8]]) -> u64 {
    let mut h = DefaultHasher::new();
    for p in parts {
        h.write(p);
    }
    h.finish()
}

fn user_template() -> RequestTemplate {
    template(vec![Segment::Literal(b"GET /users/".to_vec()), Segment::Arg(0)])
}

#[test]
fn cache_key_digests_resolved_request() {
    let ctx = EvalContext { args: vec![Some(b"7".to_vec())] };
    let io = IO::Http {
        req_template: user_template(),
        group_by: None,
        dl_id: None,
        is_list: false,
        dedupe: false,
        hook: None,
    };
    assert_eq!(io.cache_key(&ctx), Some(IoId::new(digest(&[b"GET /users/", b"7"]))));
}

#[test]
fn cache_key_same_for_same_resolution() {
    let io = IO::Grpc {
        req_template: user_template(),
        group_by: None,
        dl_id: None,
        dedupe: true,
        hook: None,
    };
    let c1 = EvalContext { args: vec![Some(b"7".to_vec()), None] };
    let c2 = EvalContext { args: vec![Some(b"7".to_vec())] };
    let c3 = EvalContext { args: vec![Some(b"8".to_vec())] };
    assert!(io.cache_key(&c1).is_some());
    assert_eq!(io.cache_key(&c1), io.cache_key(&c2));
    assert_ne!(io.cache_key(&c1), io.cache_key(&c3));
}

#[test]
fn cache_key_absent_when_unresolved() {
    let io = IO::GraphQL {
        req_template: user_template(),
        field_name: "user".to_string(),
        batch: false,
        dl_id: None,
        dedupe: false,
    };
    assert_eq!(io.cache_key(&EvalContext { args: vec![] }), None);
    assert_eq!(io.cache_key(&EvalContext { args: vec![None] }), None);
}

#[test]
fn cache_key_absent_when_not_cacheable() {
    let t = RequestTemplate { segments: vec![Segment::Literal(b"GET /".to_vec())], cacheable: false };
    assert_eq!(t.cache_key(&EvalContext { args: vec![] }), None);
}

#[test]
fn cache_key_absent_for_script() {
    assert_eq!(js("run").cache_key(&EvalContext { args: vec![Some(b"1".to_vec())] }), None);
}

#[test]
fn template_without_arguments_has_key() {
    let t = template(vec![Segment::Literal(b"GET /".to_vec())]);
    assert_eq!(t.cache_key(&EvalContext { args: vec![] }), Some(IoId::new(digest(&[b"GET /"]))));
    let empty = template(vec![]);
    assert_eq!(empty.cache_key(&EvalContext { args: vec![] }), Some(IoId::new(digest(&[]))));
}
