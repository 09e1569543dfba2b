use crate::model::{
    entries_well_formed, entry_plans_of, names_unique, plan_of, plan_well_formed, plans_of,
    plans_well_formed, Cache, FreshnessWindow, PlanView, IR,
};
use crate::rewrite::{all_rewritten, entries_rewritten, recached, rewritten};
use vstd::prelude::*;

verus! {

/// The tree with every leaf that the whole-tree rewrite reaches cached under
/// window `w`: bare leaves are wrapped, cached ones take the new window.
pub open spec fn wrapped(w: FreshnessWindow, p: PlanView) -> PlanView
    decreases p,
{
    match p {
        PlanView::IO(l) => PlanView::Cache(w, l),
        PlanView::Cache(_, l) => PlanView::Cache(w, l),
        PlanView::Path(c, q) => PlanView::Path(Box::new(wrapped(w, *c)), q),
        PlanView::Protect(a, c) => PlanView::Protect(a, Box::new(wrapped(w, *c))),
        PlanView::FieldMap(c, m) => PlanView::FieldMap(Box::new(wrapped(w, *c)), m),
        PlanView::Pipe(a, b) => PlanView::Pipe(Box::new(wrapped(w, *a)), Box::new(wrapped(w, *b))),
        PlanView::Merge(s) => PlanView::Merge(wrapped_all(w, s)),
        PlanView::Discriminate(d, c) => PlanView::Discriminate(d, Box::new(wrapped(w, *c))),
        PlanView::Entity(s) => PlanView::Entity(wrapped_entries(w, s)),
        other => other,
    }
}

pub open spec fn wrapped_all(w: FreshnessWindow, s: Seq<PlanView>) -> Seq<PlanView>
    decreases s,
{
    if s.len() == 0 {
        Seq::empty()
    } else {
        wrapped_all(w, s.drop_last()).push(wrapped(w, s.last()))
    }
}

pub open spec fn wrapped_entries(w: FreshnessWindow, s: Seq<(String, PlanView)>) -> Seq<
    (String, PlanView),
>
    decreases s,
{
    if s.len() == 0 {
        Seq::empty()
    } else {
        wrapped_entries(w, s.drop_last()).push((s.last().0, wrapped(w, s.last().1)))
    }
}

/// What the caching rule gives for node `e`: a cache node with window `w`
/// over a copy of a bare leaf, and nothing for any other node.
pub open spec fn caches_leaf(w: FreshnessWindow, e: IR, o: Option<IR>) -> bool {
    match e {
        IR::IO(io) => o matches Some(IR::Cache(c)) && c.max_age == w && c.io@ == io@,
        _ => o is None,
    }
}

proof fn lemma_wrap_rewrite<F: Fn(&IR) -> Option<IR>>(f: F, w: FreshnessWindow, t: IR, r: IR)
    requires
        forall|e: IR, o: Option<IR>| call_ensures(f, (&e,), o) ==> caches_leaf(w, e, o),
        rewritten(f, t, r),
    ensures
        plan_of(r) == wrapped(w, plan_of(t)),
    decreases t,
{
    if call_ensures(f, (&t,), Some(r)) {
        assert(caches_leaf(w, t, Some(r)));
    } else {
        assert(call_ensures(f, (&t,), None));
        match t {
            IR::Cache(c) => {
                if call_ensures(f, (&IR::IO(*c.io),), None) {
                    assert(caches_leaf(w, IR::IO(*c.io), None));
                } else {
                    let m = choose|m: IR|
                        call_ensures(f, (&IR::IO(*c.io),), Some(m)) && r == recached(c.max_age, m);
                    assert(caches_leaf(w, IR::IO(*c.io), Some(m)));
                }
            },
            IR::Path(c, _) => {
                match r {
                    IR::Path(rc, _) => {
                        lemma_wrap_rewrite(f, w, *c, *rc);
                    },
                    _ => {},
                }
            },
            IR::Protect(_, c) => {
                match r {
                    IR::Protect(_, rc) => {
                        lemma_wrap_rewrite(f, w, *c, *rc);
                    },
                    _ => {},
                }
            },
            IR::FieldMap(m) => {
                match r {
                    IR::FieldMap(rm) => {
                        lemma_wrap_rewrite(f, w, *m.input, *rm.input);
                    },
                    _ => {},
                }
            },
            IR::Pipe(a, b) => {
                match r {
                    IR::Pipe(ra, rb) => {
                        lemma_wrap_rewrite(f, w, *a, *ra);
                        lemma_wrap_rewrite(f, w, *b, *rb);
                    },
                    _ => {},
                }
            },
            IR::Discriminate(_, c) => {
                match r {
                    IR::Discriminate(_, rc) => {
                        lemma_wrap_rewrite(f, w, *c, *rc);
                    },
                    _ => {},
                }
            },
            IR::Merge(v) => {
                match r {
                    IR::Merge(rv) => {
                        lemma_wrap_rewrite_all(f, w, v@, rv@);
                    },
                    _ => {},
                }
            },
            IR::Entity(v) => {
                match r {
                    IR::Entity(rv) => {
                        lemma_wrap_rewrite_entries(f, w, v@, rv@);
                    },
                    _ => {},
                }
            },
            IR::IO(io) => {
                assert(caches_leaf(w, t, None));
            },
            _ => {},
        }
    }
}

proof fn lemma_wrap_rewrite_all<F: Fn(&IR) -> Option<IR>>(
    f: F,
    w: FreshnessWindow,
    s: Seq<IR>,
    u: Seq<IR>,
)
    requires
        forall|e: IR, o: Option<IR>| call_ensures(f, (&e,), o) ==> caches_leaf(w, e, o),
        all_rewritten(f, s, u),
    ensures
        plans_of(u) == wrapped_all(w, plans_of(s)),
    decreases s,
{
    if s.len() > 0 {
        lemma_wrap_rewrite_all(f, w, s.drop_last(), u.drop_last());
        lemma_wrap_rewrite(f, w, s.last(), u.last());
        let p = plans_of(s);
        assert(p.drop_last() =~= plans_of(s.drop_last()));
    }
}

proof fn lemma_wrap_rewrite_entries<F: Fn(&IR) -> Option<IR>>(
    f: F,
    w: FreshnessWindow,
    s: Seq<(String, IR)>,
    u: Seq<(String, IR)>,
)
    requires
        forall|e: IR, o: Option<IR>| call_ensures(f, (&e,), o) ==> caches_leaf(w, e, o),
        entries_rewritten(f, s, u),
    ensures
        entry_plans_of(u) == wrapped_entries(w, entry_plans_of(s)),
    decreases s,
{
    if s.len() > 0 {
        lemma_wrap_rewrite_entries(f, w, s.drop_last(), u.drop_last());
        lemma_wrap_rewrite(f, w, s.last().1, u.last().1);
        let p = entry_plans_of(s);
        assert(p.drop_last() =~= entry_plans_of(s.drop_last()));
    }
}

impl Cache {
    /// Caches every leaf operation of the tree that the whole-tree rewrite
    /// reaches under window `max_age`, including those already cached.
    pub fn wrap(max_age: FreshnessWindow, expr: IR) -> (r: IR)
        ensures
            r@ == wrapped(max_age, expr@),
            expr.well_formed() ==> r.well_formed(),
    {
        let rule = |e: &IR| -> (o: Option<IR>)
            ensures
                caches_leaf(max_age, *e, o),
            {
                match e {
                    IR::IO(io) => Some(IR::Cache(Cache { max_age, io: Box::new(io.clone()) })),
                    _ => None,
                }
            };
        let r = expr.modify(&rule);
        proof {
            lemma_wrap_rewrite(rule, max_age, expr, r);
            if expr.well_formed() {
                lemma_wrap_well_formed(max_age, expr@);
            }
        }
        r
    }
}

/// Caching twice keeps the shape of the first caching and the window of
/// the second.
pub proof fn lemma_rewrap_overwrites_window(w1: FreshnessWindow, w2: FreshnessWindow, p: PlanView)
    ensures
        wrapped(w2, wrapped(w1, p)) == wrapped(w2, p),
    decreases p,
{
    match p {
        PlanView::Path(c, _) => lemma_rewrap_overwrites_window(w1, w2, *c),
        PlanView::Protect(_, c) => lemma_rewrap_overwrites_window(w1, w2, *c),
        PlanView::FieldMap(c, _) => lemma_rewrap_overwrites_window(w1, w2, *c),
        PlanView::Pipe(a, b) => {
            lemma_rewrap_overwrites_window(w1, w2, *a);
            lemma_rewrap_overwrites_window(w1, w2, *b);
        },
        PlanView::Discriminate(_, c) => lemma_rewrap_overwrites_window(w1, w2, *c),
        PlanView::Merge(s) => lemma_rewrap_all(w1, w2, s),
        PlanView::Entity(s) => lemma_rewrap_entries(w1, w2, s),
        _ => {},
    }
}

proof fn lemma_rewrap_all(w1: FreshnessWindow, w2: FreshnessWindow, s: Seq<PlanView>)
    ensures
        wrapped_all(w2, wrapped_all(w1, s)) == wrapped_all(w2, s),
    decreases s,
{
    if s.len() > 0 {
        lemma_rewrap_all(w1, w2, s.drop_last());
        lemma_rewrap_overwrites_window(w1, w2, s.last());
        let q = wrapped_all(w1, s);
        assert(q.drop_last() =~= wrapped_all(w1, s.drop_last()));
    }
}

proof fn lemma_rewrap_entries(w1: FreshnessWindow, w2: FreshnessWindow, s: Seq<(String, PlanView)>)
    ensures
        wrapped_entries(w2, wrapped_entries(w1, s)) == wrapped_entries(w2, s),
    decreases s,
{
    if s.len() > 0 {
        lemma_rewrap_entries(w1, w2, s.drop_last());
        lemma_rewrap_overwrites_window(w1, w2, s.last().1);
        let q = wrapped_entries(w1, s);
        assert(q.drop_last() =~= wrapped_entries(w1, s.drop_last()));
    }
}

/// A rule that caches bare leaves under one window, and declines every
/// other node, gives the same tree when its rewrite is applied a second time.
pub proof fn lemma_caching_rule_idempotent<F: Fn(&IR) -> Option<IR>>(
    f: F,
    w: FreshnessWindow,
    t: IR,
    once: IR,
    twice: IR,
)
    requires
        forall|e: IR, o: Option<IR>| call_ensures(f, (&e,), o) ==> caches_leaf(w, e, o),
        rewritten(f, t, once),
        rewritten(f, once, twice),
    ensures
        twice@ == once@,
{
    lemma_wrap_rewrite(f, w, t, once);
    lemma_wrap_rewrite(f, w, once, twice);
    lemma_rewrap_overwrites_window(w, w, t@);
}

/// The leaves that the whole-tree rewrite reaches, in traversal order:
/// `None` for a bare leaf, the window for a cached one.
pub open spec fn leaf_windows(p: PlanView) -> Seq<Option<FreshnessWindow>>
    decreases p,
{
    match p {
        PlanView::IO(_) => seq![None],
        PlanView::Cache(w, _) => seq![Some(w)],
        PlanView::Path(c, _) => leaf_windows(*c),
        PlanView::Protect(_, c) => leaf_windows(*c),
        PlanView::FieldMap(c, _) => leaf_windows(*c),
        PlanView::Pipe(a, b) => leaf_windows(*a) + leaf_windows(*b),
        PlanView::Merge(s) => leaf_windows_all(s),
        PlanView::Discriminate(_, c) => leaf_windows(*c),
        PlanView::Entity(s) => leaf_windows_entries(s),
        _ => Seq::empty(),
    }
}

pub open spec fn leaf_windows_all(s: Seq<PlanView>) -> Seq<Option<FreshnessWindow>>
    decreases s,
{
    if s.len() == 0 {
        Seq::empty()
    } else {
        leaf_windows_all(s.drop_last()) + leaf_windows(s.last())
    }
}

pub open spec fn leaf_windows_entries(s: Seq<(String, PlanView)>) -> Seq<Option<FreshnessWindow>>
    decreases s,
{
    if s.len() == 0 {
        Seq::empty()
    } else {
        leaf_windows_entries(s.drop_last()) + leaf_windows(s.last().1)
    }
}

/// Caching under `w` turns the `k` reachable leaves of a tree into exactly
/// `k` cache nodes, each with window `w`, and leaves no bare leaf.
pub proof fn lemma_wrap_caches_every_leaf(w: FreshnessWindow, p: PlanView)
    ensures
        leaf_windows(wrapped(w, p)).len() == leaf_windows(p).len(),
        forall|i: int|
            0 <= i < leaf_windows(p).len() ==> #[trigger] leaf_windows(wrapped(w, p))[i] == Some(w),
    decreases p,
{
    match p {
        PlanView::Path(c, _) => lemma_wrap_caches_every_leaf(w, *c),
        PlanView::Protect(_, c) => lemma_wrap_caches_every_leaf(w, *c),
        PlanView::FieldMap(c, _) => lemma_wrap_caches_every_leaf(w, *c),
        PlanView::Pipe(a, b) => {
            lemma_wrap_caches_every_leaf(w, *a);
            lemma_wrap_caches_every_leaf(w, *b);
        },
        PlanView::Discriminate(_, c) => lemma_wrap_caches_every_leaf(w, *c),
        PlanView::Merge(s) => lemma_wrap_caches_all(w, s),
        PlanView::Entity(s) => lemma_wrap_caches_entries(w, s),
        _ => {},
    }
}

proof fn lemma_wrap_caches_all(w: FreshnessWindow, s: Seq<PlanView>)
    ensures
        leaf_windows_all(wrapped_all(w, s)).len() == leaf_windows_all(s).len(),
        forall|i: int|
            0 <= i < leaf_windows_all(s).len() ==> #[trigger] leaf_windows_all(wrapped_all(w, s))[i]
                == Some(w),
    decreases s,
{
    if s.len() > 0 {
        lemma_wrap_caches_all(w, s.drop_last());
        lemma_wrap_caches_every_leaf(w, s.last());
        let q = wrapped_all(w, s);
        assert(q.drop_last() =~= wrapped_all(w, s.drop_last()));
    }
}

proof fn lemma_wrap_caches_entries(w: FreshnessWindow, s: Seq<(String, PlanView)>)
    ensures
        leaf_windows_entries(wrapped_entries(w, s)).len() == leaf_windows_entries(s).len(),
        forall|i: int|
            0 <= i < leaf_windows_entries(s).len() ==> #[trigger] leaf_windows_entries(
                wrapped_entries(w, s),
            )[i] == Some(w),
    decreases s,
{
    if s.len() > 0 {
        lemma_wrap_caches_entries(w, s.drop_last());
        lemma_wrap_caches_every_leaf(w, s.last().1);
        let q = wrapped_entries(w, s);
        assert(q.drop_last() =~= wrapped_entries(w, s.drop_last()));
    }
}

/// Caching keeps the invariant of a tree.
pub proof fn lemma_wrap_well_formed(w: FreshnessWindow, p: PlanView)
    requires
        plan_well_formed(p),
    ensures
        plan_well_formed(wrapped(w, p)),
    decreases p,
{
    match p {
        PlanView::Path(c, _) => lemma_wrap_well_formed(w, *c),
        PlanView::Protect(_, c) => lemma_wrap_well_formed(w, *c),
        PlanView::FieldMap(c, _) => lemma_wrap_well_formed(w, *c),
        PlanView::Pipe(a, b) => {
            lemma_wrap_well_formed(w, *a);
            lemma_wrap_well_formed(w, *b);
        },
        PlanView::Discriminate(_, c) => lemma_wrap_well_formed(w, *c),
        PlanView::Merge(s) => lemma_wrap_all_well_formed(w, s),
        PlanView::Entity(s) => {
            lemma_wrap_entries_well_formed(w, s);
            lemma_wrap_entries_names(w, s);
        },
        _ => {},
    }
}

proof fn lemma_wrap_all_well_formed(w: FreshnessWindow, s: Seq<PlanView>)
    requires
        plans_well_formed(s),
    ensures
        plans_well_formed(wrapped_all(w, s)),
    decreases s,
{
    if s.len() > 0 {
        lemma_wrap_all_well_formed(w, s.drop_last());
        lemma_wrap_well_formed(w, s.last());
        let q = wrapped_all(w, s);
        assert(q.drop_last() =~= wrapped_all(w, s.drop_last()));
    }
}

proof fn lemma_wrap_entries_well_formed(w: FreshnessWindow, s: Seq<(String, PlanView)>)
    requires
        entries_well_formed(s),
    ensures
        entries_well_formed(wrapped_entries(w, s)),
    decreases s,
{
    if s.len() > 0 {
        lemma_wrap_entries_well_formed(w, s.drop_last());
        lemma_wrap_well_formed(w, s.last().1);
        let q = wrapped_entries(w, s);
        assert(q.drop_last() =~= wrapped_entries(w, s.drop_last()));
    }
}

proof fn lemma_wrap_entries_names(w: FreshnessWindow, s: Seq<(String, PlanView)>)
    ensures
        wrapped_entries(w, s).len() == s.len(),
        forall|i: int| 0 <= i < s.len() ==> #[trigger] wrapped_entries(w, s)[i].0 == s[i].0,
        names_unique(s) ==> names_unique(wrapped_entries(w, s)),
    decreases s,
{
    if s.len() > 0 {
        lemma_wrap_entries_names(w, s.drop_last());
        let q = wrapped_entries(w, s);
        assert forall|i: int| 0 <= i < s.len() implies #[trigger] q[i].0 == s[i].0 by {
            if i < s.len() - 1 {
                assert(q[i] == wrapped_entries(w, s.drop_last())[i]);
                assert(s.drop_last()[i] == s[i]);
            }
        }
    }
}

} // verus!
