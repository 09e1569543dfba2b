use crate::model::{
    entries_well_formed, entry_plans_of, names_unique, plans_of, Cache, FieldMap, IO, IR,
};
use vstd::prelude::*;

verus! {

/// The result of a rule's replacement for the leaf of a cache node: a leaf
/// is cached again with the window kept, anything else stands as it is.
pub open spec fn recached(max_age: crate::model::FreshnessWindow, m: IR) -> IR {
    match m {
        IR::IO(io) => IR::Cache(Cache { max_age, io: Box::new(io) }),
        other => other,
    }
}

/// `r` is a possible result of rewriting `t` top-down with rule `f`: where
/// the rule gives a replacement it stands verbatim; where it declines, the
/// node keeps its variant and payload and its children are rewritten.
pub open spec fn rewritten<F: Fn(&IR) -> Option<IR>>(f: F, t: IR, r: IR) -> bool
    decreases t,
{
    call_ensures(f, (&t,), Some(r)) || (call_ensures(f, (&t,), None) && match t {
        IR::Cache(c) => (exists|m: IR|
            call_ensures(f, (&IR::IO(*c.io),), Some(m)) && r == recached(c.max_age, m)) || (
        call_ensures(f, (&IR::IO(*c.io),), None) && r == t),
        IR::Path(c, p) => r matches IR::Path(rc, rp) && rp == p && rewritten(f, *c, *rc),
        IR::Protect(a, c) => r matches IR::Protect(ra, rc) && ra == a && rewritten(f, *c, *rc),
        IR::FieldMap(m) => r matches IR::FieldMap(rm) && rm.map == m.map && rewritten(
            f,
            *m.input,
            *rm.input,
        ),
        IR::Pipe(a, b) => r matches IR::Pipe(ra, rb) && rewritten(f, *a, *ra) && rewritten(
            f,
            *b,
            *rb,
        ),
        IR::Merge(v) => r matches IR::Merge(rv) && all_rewritten(f, v@, rv@),
        IR::Discriminate(d, c) => r matches IR::Discriminate(rd, rc) && rd == d && rewritten(
            f,
            *c,
            *rc,
        ),
        IR::Entity(v) => r matches IR::Entity(rv) && entries_rewritten(f, v@, rv@),
        _ => r == t,
    })
}

/// Each tree of `u` is a rewrite of the tree of `s` at the same position.
pub open spec fn all_rewritten<F: Fn(&IR) -> Option<IR>>(f: F, s: Seq<IR>, u: Seq<IR>) -> bool
    decreases s,
{
    s.len() == u.len() && (s.len() == 0 || (all_rewritten(f, s.drop_last(), u.drop_last())
        && rewritten(f, s.last(), u.last())))
}

/// The entries of `u` keep the names of those of `s`, in order, and
/// rewrite their trees.
pub open spec fn entries_rewritten<F: Fn(&IR) -> Option<IR>>(
    f: F,
    s: Seq<(String, IR)>,
    u: Seq<(String, IR)>,
) -> bool
    decreases s,
{
    s.len() == u.len() && (s.len() == 0 || (entries_rewritten(f, s.drop_last(), u.drop_last())
        && u.last().0 == s.last().0 && rewritten(f, s.last().1, u.last().1)))
}

fn modify_all<F: Fn(&IR) -> Option<IR>>(v: Vec<IR>, modifier: &F) -> (r: Vec<IR>)
    requires
        forall|x: IR| call_requires(*modifier, (&x,)),
    ensures
        all_rewritten(*modifier, v@, r@),
    decreases v@,
{
    let mut v = v;
    let ghost v0 = v@;
    match v.pop() {
        None => Vec::new(),
        Some(last) => {
            assert(v@ == v0.drop_last());
            let mut r = modify_all(v, modifier);
            let ghost r0 = r@;
            let x = last.modify_inner(modifier);
            r.push(x);
            assert(r@.drop_last() =~= r0);
            r
        },
    }
}

fn modify_entries<F: Fn(&IR) -> Option<IR>>(v: Vec<(String, IR)>, modifier: &F) -> (r: Vec<
    (String, IR),
>)
    requires
        forall|x: IR| call_requires(*modifier, (&x,)),
    ensures
        entries_rewritten(*modifier, v@, r@),
    decreases v@,
{
    let mut v = v;
    let ghost v0 = v@;
    match v.pop() {
        None => Vec::new(),
        Some((name, last)) => {
            assert(v@ == v0.drop_last());
            let mut r = modify_entries(v, modifier);
            let ghost r0 = r@;
            let x = last.modify(modifier);
            r.push((name, x));
            assert(r@.drop_last() =~= r0);
            r
        },
    }
}

impl IR {
    /// Sequences two trees: the result of `self` is the input of `next`.
    pub fn pipe(self, next: Self) -> (r: Self)
        ensures
            r == IR::Pipe(Box::new(self), Box::new(next)),
    {
        IR::Pipe(Box::new(self), Box::new(next))
    }

    /// Rewrites the whole tree top-down with a node-level rule.
    pub fn modify<F: Fn(&IR) -> Option<IR>>(self, modifier: &F) -> (r: IR)
        requires
            forall|x: IR| call_requires(*modifier, (&x,)),
        ensures
            rewritten(*modifier, self, r),
        decreases self, 1nat,
    {
        self.modify_inner(modifier)
    }

    fn modify_inner<F: Fn(&IR) -> Option<IR>>(self, modifier: &F) -> (r: IR)
        requires
            forall|x: IR| call_requires(*modifier, (&x,)),
        ensures
            rewritten(*modifier, self, r),
        decreases self, 0nat,
    {
        let modified = modifier(&self);
        match modified {
            Some(expr) => expr,
            None => match self {
                IR::Pipe(first, second) => {
                    let a = (*first).modify_inner(modifier);
                    let b = (*second).modify_inner(modifier);
                    IR::Pipe(Box::new(a), Box::new(b))
                },
                IR::ContextPath(path) => IR::ContextPath(path),
                IR::Dynamic(value) => IR::Dynamic(value),
                IR::IO(io) => IR::IO(io),
                IR::Cache(Cache { io, max_age }) => {
                    let leaf = IR::IO(*io);
                    match modifier(&leaf) {
                        Some(expr) => {
                            let ghost m = expr;
                            let res = match expr {
                                IR::IO(io) => IR::Cache(Cache { io: Box::new(io), max_age }),
                                other => other,
                            };
                            assert(res == recached(max_age, m));
                            res
                        },
                        None => match leaf {
                            IR::IO(io) => IR::Cache(Cache { io: Box::new(io), max_age }),
                            expr => expr,
                        },
                    }
                },
                IR::Path(expr, path) => IR::Path(Box::new((*expr).modify_inner(modifier)), path),
                IR::Protect(auth, expr) => IR::Protect(
                    auth,
                    Box::new((*expr).modify_inner(modifier)),
                ),
                IR::FieldMap(FieldMap { input, map }) => IR::FieldMap(
                    FieldMap { input: Box::new((*input).modify_inner(modifier)), map },
                ),
                IR::Discriminate(discriminator, expr) => IR::Discriminate(
                    discriminator,
                    Box::new((*expr).modify_inner(modifier)),
                ),
                IR::Entity(map) => IR::Entity(modify_entries(map, modifier)),
                IR::Service(sdl) => IR::Service(sdl),
                IR::Merge(vec) => IR::Merge(modify_all(vec, modifier)),
            },
        }
    }
}

/// `r` is a possible result of applying the leaf rule `f` to every leaf of
/// `t` that the in-place traversal reaches: bare leaves, the leaves of cache
/// nodes, and the children of every node but `Merge`'s. All else is kept.
pub open spec fn io_mapped<F: Fn(IO) -> IO>(f: F, t: IR, r: IR) -> bool
    decreases t,
{
    match t {
        IR::IO(io) => r matches IR::IO(rio) && call_ensures(f, (io,), rio),
        IR::Cache(c) => r matches IR::Cache(rc) && rc.max_age == c.max_age && call_ensures(
            f,
            (*c.io,),
            *rc.io,
        ),
        IR::Path(c, p) => r matches IR::Path(rc, rp) && rp == p && io_mapped(f, *c, *rc),
        IR::Protect(a, c) => r matches IR::Protect(ra, rc) && ra == a && io_mapped(f, *c, *rc),
        IR::FieldMap(m) => r matches IR::FieldMap(rm) && rm.map == m.map && io_mapped(
            f,
            *m.input,
            *rm.input,
        ),
        IR::Pipe(a, b) => r matches IR::Pipe(ra, rb) && io_mapped(f, *a, *ra) && io_mapped(
            f,
            *b,
            *rb,
        ),
        IR::Discriminate(d, c) => r matches IR::Discriminate(rd, rc) && rd == d && io_mapped(
            f,
            *c,
            *rc,
        ),
        IR::Entity(v) => r matches IR::Entity(rv) && entries_io_mapped(f, v@, rv@),
        _ => r == t,
    }
}

/// The entries of `u` keep the names of those of `s`, in order, and map
/// the leaves of their trees.
pub open spec fn entries_io_mapped<F: Fn(IO) -> IO>(
    f: F,
    s: Seq<(String, IR)>,
    u: Seq<(String, IR)>,
) -> bool
    decreases s,
{
    s.len() == u.len() && (s.len() == 0 || (entries_io_mapped(f, s.drop_last(), u.drop_last())
        && u.last().0 == s.last().0 && io_mapped(f, s.last().1, u.last().1)))
}

fn map_io_entries<F: Fn(IO) -> IO>(v: Vec<(String, IR)>, io_modifier: &F) -> (r: Vec<
    (String, IR),
>)
    requires
        forall|io: IO| call_requires(*io_modifier, (io,)),
    ensures
        entries_io_mapped(*io_modifier, v@, r@),
    decreases v@,
{
    let mut v = v;
    let ghost v0 = v@;
    match v.pop() {
        None => Vec::new(),
        Some((name, last)) => {
            assert(v@ == v0.drop_last());
            let mut r = map_io_entries(v, io_modifier);
            let ghost r0 = r@;
            let x = last.map_io(io_modifier);
            r.push((name, x));
            assert(r@.drop_last() =~= r0);
            r
        },
    }
}

impl IR {
    /// Applies `io_modifier` to every leaf operation that the in-place
    /// traversal reaches (see `io_mapped`), leaving the rest of the tree.
    pub fn modify_io<F: Fn(IO) -> IO>(&mut self, io_modifier: &F)
        requires
            forall|io: IO| call_requires(*io_modifier, (io,)),
        ensures
            io_mapped(*io_modifier, *old(self), *final(self)),
            old(self).well_formed() ==> final(self).well_formed(),
    {
        let mut tree = IR::ContextPath(Vec::new());
        std::mem::swap(self, &mut tree);
        let ghost t = tree;
        *self = tree.map_io(io_modifier);
        proof {
            if t.well_formed() {
                lemma_io_mapped_well_formed(*io_modifier, t, *self);
            }
        }
    }

    fn map_io<F: Fn(IO) -> IO>(self, io_modifier: &F) -> (r: IR)
        requires
            forall|io: IO| call_requires(*io_modifier, (io,)),
        ensures
            io_mapped(*io_modifier, self, r),
        decreases self,
    {
        match self {
            IR::IO(io) => IR::IO(io_modifier(io)),
            IR::Cache(Cache { max_age, io }) => IR::Cache(
                Cache { max_age, io: Box::new(io_modifier(*io)) },
            ),
            IR::Discriminate(d, ir) => IR::Discriminate(d, Box::new((*ir).map_io(io_modifier))),
            IR::Protect(a, ir) => IR::Protect(a, Box::new((*ir).map_io(io_modifier))),
            IR::Path(ir, p) => IR::Path(Box::new((*ir).map_io(io_modifier)), p),
            IR::Pipe(ir1, ir2) => {
                let a = (*ir1).map_io(io_modifier);
                let b = (*ir2).map_io(io_modifier);
                IR::Pipe(Box::new(a), Box::new(b))
            },
            IR::Entity(entries) => IR::Entity(map_io_entries(entries, io_modifier)),
            IR::FieldMap(FieldMap { input, map }) => IR::FieldMap(
                FieldMap { input: Box::new((*input).map_io(io_modifier)), map },
            ),
            other => other,
        }
    }
}

/// A rule that declines every node rewrites any tree into one that holds
/// exactly what the input held.
pub proof fn lemma_declining_rule_is_identity<F: Fn(&IR) -> Option<IR>>(f: F, t: IR, r: IR)
    requires
        forall|e: IR, o: Option<IR>| call_ensures(f, (&e,), o) ==> o is None,
        rewritten(f, t, r),
    ensures
        r@ == t@,
    decreases t,
{
    if call_ensures(f, (&t,), Some(r)) {
    } else {
        match t {
            IR::Cache(c) => {
                if !call_ensures(f, (&IR::IO(*c.io),), None) {
                    let m = choose|m: IR|
                        call_ensures(f, (&IR::IO(*c.io),), Some(m)) && r == recached(c.max_age, m);
                }
            },
            IR::Path(c, _) => {
                match r {
                    IR::Path(rc, _) => lemma_declining_rule_is_identity(f, *c, *rc),
                    _ => {},
                }
            },
            IR::Protect(_, c) => {
                match r {
                    IR::Protect(_, rc) => lemma_declining_rule_is_identity(f, *c, *rc),
                    _ => {},
                }
            },
            IR::FieldMap(m) => {
                match r {
                    IR::FieldMap(rm) => lemma_declining_rule_is_identity(f, *m.input, *rm.input),
                    _ => {},
                }
            },
            IR::Pipe(a, b) => {
                match r {
                    IR::Pipe(ra, rb) => {
                        lemma_declining_rule_is_identity(f, *a, *ra);
                        lemma_declining_rule_is_identity(f, *b, *rb);
                    },
                    _ => {},
                }
            },
            IR::Discriminate(_, c) => {
                match r {
                    IR::Discriminate(_, rc) => lemma_declining_rule_is_identity(f, *c, *rc),
                    _ => {},
                }
            },
            IR::Merge(v) => {
                match r {
                    IR::Merge(rv) => lemma_declining_all(f, v@, rv@),
                    _ => {},
                }
            },
            IR::Entity(v) => {
                match r {
                    IR::Entity(rv) => lemma_declining_entries(f, v@, rv@),
                    _ => {},
                }
            },
            _ => {},
        }
    }
}

proof fn lemma_declining_all<F: Fn(&IR) -> Option<IR>>(f: F, s: Seq<IR>, u: Seq<IR>)
    requires
        forall|e: IR, o: Option<IR>| call_ensures(f, (&e,), o) ==> o is None,
        all_rewritten(f, s, u),
    ensures
        plans_of(u) == plans_of(s),
    decreases s,
{
    if s.len() > 0 {
        lemma_declining_all(f, s.drop_last(), u.drop_last());
        lemma_declining_rule_is_identity(f, s.last(), u.last());
    }
}

proof fn lemma_declining_entries<F: Fn(&IR) -> Option<IR>>(
    f: F,
    s: Seq<(String, IR)>,
    u: Seq<(String, IR)>,
)
    requires
        forall|e: IR, o: Option<IR>| call_ensures(f, (&e,), o) ==> o is None,
        entries_rewritten(f, s, u),
    ensures
        entry_plans_of(u) == entry_plans_of(s),
    decreases s,
{
    if s.len() > 0 {
        lemma_declining_entries(f, s.drop_last(), u.drop_last());
        lemma_declining_rule_is_identity(f, s.last().1, u.last().1);
    }
}

/// Mapping the leaves keeps the invariant of a tree.
pub proof fn lemma_io_mapped_well_formed<F: Fn(IO) -> IO>(f: F, t: IR, r: IR)
    requires
        io_mapped(f, t, r),
        t.well_formed(),
    ensures
        r.well_formed(),
    decreases t,
{
    match t {
        IR::Path(c, _) => {
            match r {
                IR::Path(rc, _) => lemma_io_mapped_well_formed(f, *c, *rc),
                _ => {},
            }
        },
        IR::Protect(_, c) => {
            match r {
                IR::Protect(_, rc) => lemma_io_mapped_well_formed(f, *c, *rc),
                _ => {},
            }
        },
        IR::FieldMap(m) => {
            match r {
                IR::FieldMap(rm) => lemma_io_mapped_well_formed(f, *m.input, *rm.input),
                _ => {},
            }
        },
        IR::Pipe(a, b) => {
            match r {
                IR::Pipe(ra, rb) => {
                    lemma_io_mapped_well_formed(f, *a, *ra);
                    lemma_io_mapped_well_formed(f, *b, *rb);
                },
                _ => {},
            }
        },
        IR::Discriminate(_, c) => {
            match r {
                IR::Discriminate(_, rc) => lemma_io_mapped_well_formed(f, *c, *rc),
                _ => {},
            }
        },
        IR::Entity(v) => {
            match r {
                IR::Entity(rv) => lemma_io_mapped_entries_well_formed(f, v@, rv@),
                _ => {},
            }
        },
        _ => {},
    }
}

proof fn lemma_io_mapped_entries_well_formed<F: Fn(IO) -> IO>(
    f: F,
    s: Seq<(String, IR)>,
    u: Seq<(String, IR)>,
)
    requires
        entries_io_mapped(f, s, u),
        entries_well_formed(entry_plans_of(s)),
    ensures
        entries_well_formed(entry_plans_of(u)),
        entry_plans_of(u).len() == s.len(),
        forall|i: int| 0 <= i < s.len() ==> #[trigger] entry_plans_of(u)[i].0 == s[i].0,
        names_unique(entry_plans_of(s)) ==> names_unique(entry_plans_of(u)),
    decreases s,
{
    lemma_entry_plan_names(s);
    lemma_entry_plan_names(u);
    lemma_io_mapped_names(f, s, u);
    if s.len() > 0 {
        let p = entry_plans_of(s);
        assert(p.drop_last() =~= entry_plans_of(s.drop_last()));
        lemma_io_mapped_entries_well_formed(f, s.drop_last(), u.drop_last());
        lemma_io_mapped_well_formed(f, s.last().1, u.last().1);
        let q = entry_plans_of(u);
        assert(q.drop_last() =~= entry_plans_of(u.drop_last()));
    }
    if names_unique(entry_plans_of(s)) {
        let p = entry_plans_of(s);
        let q = entry_plans_of(u);
        assert forall|i: int, j: int| 0 <= i < j < q.len() implies q[i].0 != q[j].0 by {
            assert(p[i].0 == s[i].0 && p[j].0 == s[j].0);
        }
    }
}

proof fn lemma_io_mapped_names<F: Fn(IO) -> IO>(f: F, s: Seq<(String, IR)>, u: Seq<(String, IR)>)
    requires
        entries_io_mapped(f, s, u),
    ensures
        u.len() == s.len(),
        forall|i: int| 0 <= i < s.len() ==> #[trigger] u[i].0 == s[i].0,
    decreases s,
{
    if s.len() > 0 {
        lemma_io_mapped_names(f, s.drop_last(), u.drop_last());
        assert forall|i: int| 0 <= i < s.len() implies #[trigger] u[i].0 == s[i].0 by {
            if i < s.len() - 1 {
                assert(u.drop_last()[i] == u[i]);
                assert(s.drop_last()[i] == s[i]);
            }
        }
    }
}

/// The entries' plans keep the entries' names.
proof fn lemma_entry_plan_names(s: Seq<(String, IR)>)
    ensures
        entry_plans_of(s).len() == s.len(),
        forall|i: int| 0 <= i < s.len() ==> #[trigger] entry_plans_of(s)[i].0 == s[i].0,
    decreases s,
{
    if s.len() > 0 {
        lemma_entry_plan_names(s.drop_last());
        let q = entry_plans_of(s);
        assert forall|i: int| 0 <= i < s.len() implies #[trigger] q[i].0 == s[i].0 by {
            if i < s.len() - 1 {
                assert(q[i] == entry_plans_of(s.drop_last())[i]);
                assert(s.drop_last()[i] == s[i]);
            }
        }
    }
}

} // verus!
