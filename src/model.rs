use async_graphql::Value;
use vstd::prelude::*;

verus! {

/// Opaque handle of a registered batching collector.
#[derive(Clone, Copy, Debug, PartialEq, Eq, Structural)]
pub struct DataLoaderId(pub usize);

impl DataLoaderId {
    pub fn new(id: usize) -> (r: Self)
        ensures
            r.0 == id,
    {
        Self(id)
    }

    pub fn as_usize(&self) -> (r: usize)
        ensures
            r == self.0,
    {
        self.0
    }
}

/// Opaque 64-bit fingerprint of a resolved request, used as a cache key.
#[derive(Clone, Copy, Debug, PartialEq, Eq, Structural, Hash)]
pub struct IoId(pub u64);

impl IoId {
    pub fn new(id: u64) -> (r: Self)
        ensures
            r.0 == id,
    {
        Self(id)
    }

    pub fn as_u64(&self) -> (r: u64)
        ensures
            r == self.0,
    {
        self.0
    }
}


/// Declares `async_graphql::Value`, the structured literal of the response
/// language, so that `Dynamic` nodes can carry it. Nothing is assumed of its
/// contents: the tree only moves it.
#[verifier::external_type_specification]
#[verifier::external_body]
pub struct ExValue(async_graphql::Value);

/// A strictly positive freshness window, in seconds: how long a cached
/// result may be reused. A zero window cannot be constructed.
#[derive(Clone, Copy, Debug, PartialEq, Eq, Structural)]
pub struct FreshnessWindow {
    secs: u64,
}

impl View for FreshnessWindow {
    type V = nat;

    closed spec fn view(&self) -> nat {
        self.secs as nat
    }
}

impl FreshnessWindow {
    #[verifier::type_invariant]
    spec fn positive(self) -> bool {
        self.secs > 0
    }

    /// The window of `secs` seconds; `None` when `secs` is zero.
    pub fn new(secs: u64) -> (r: Option<Self>)
        ensures
            r is Some <==> secs > 0,
            r matches Some(w) ==> w@ == secs,
    {
        if secs == 0 {
            None
        } else {
            Some(FreshnessWindow { secs })
        }
    }

    pub fn get(&self) -> (r: u64)
        ensures
            r == self@,
            r > 0,
    {
        proof {
            use_type_invariant(self);
        }
        self.secs
    }
}

/// One piece of a request template: literal bytes, or the value of the
/// evaluation context's argument at the given position.
#[derive(Debug)]
pub enum Segment {
    Literal(Vec<u8>),
    Arg(usize),
}

/// What a segment holds.
pub enum SegmentView {
    Literal(Seq<u8>),
    Arg(usize),
}

impl View for Segment {
    type V = SegmentView;

    open spec fn view(&self) -> SegmentView {
        match self {
            Segment::Literal(bytes) => SegmentView::Literal(bytes@),
            Segment::Arg(i) => SegmentView::Arg(*i),
        }
    }
}

impl Clone for Segment {
    fn clone(&self) -> (r: Self)
        ensures
            r@ == self@,
    {
        match self {
            Segment::Literal(bytes) => {
                let c = bytes.clone();
                assert(c@ =~= bytes@);
                Segment::Literal(c)
            },
            Segment::Arg(i) => Segment::Arg(*i),
        }
    }
}

/// A backend request template: the pieces whose resolution against an
/// evaluation context makes up the outbound request, and whether the
/// backend allows its responses to be cached.
#[derive(Debug)]
pub struct RequestTemplate {
    pub segments: Vec<Segment>,
    pub cacheable: bool,
}

/// What a template holds: its segments and whether it may be cached.
pub struct TemplateView {
    pub segments: Seq<SegmentView>,
    pub cacheable: bool,
}

impl View for RequestTemplate {
    type V = TemplateView;

    open spec fn view(&self) -> TemplateView {
        TemplateView { segments: self.segments@.map_values(|g: Segment| g@), cacheable: self.cacheable }
    }
}

impl Clone for RequestTemplate {
    fn clone(&self) -> (r: Self)
        ensures
            r@ == self@,
    {
        let segments = self.segments.clone();
        assert(segments@.map_values(|g: Segment| g@) =~= self.segments@.map_values(|g: Segment| g@));
        RequestTemplate { segments, cacheable: self.cacheable }
    }
}

/// The path of the field by which a batching collector groups responses.
#[derive(Debug)]
pub struct GroupBy {
    pub path: Vec<String>,
}

impl View for GroupBy {
    type V = Seq<String>;

    open spec fn view(&self) -> Seq<String> {
        self.path@
    }
}

impl Clone for GroupBy {
    fn clone(&self) -> (r: Self)
        ensures
            r@ == self@,
    {
        let path = self.path.clone();
        assert(path@ =~= self.path@);
        GroupBy { path }
    }
}

/// Names of the script functions run before a request and after its response.
#[derive(Debug)]
pub struct WorkerHooks {
    pub on_request: Option<String>,
    pub on_response: Option<String>,
}

fn clone_name(s: &Option<String>) -> (r: Option<String>)
    ensures
        r == *s,
{
    match s {
        Some(n) => Some(n.clone()),
        None => None,
    }
}

impl Clone for WorkerHooks {
    fn clone(&self) -> (r: Self)
        ensures
            r == *self,
    {
        WorkerHooks { on_request: clone_name(&self.on_request), on_response: clone_name(&self.on_response) }
    }
}

/// An authorization requirement that gates a subtree.
#[derive(Debug)]
pub struct Auth {
    pub requirement: String,
}

/// Metadata resolving which concrete type a polymorphic result belongs to.
#[derive(Debug)]
pub struct Discriminator {
    pub types: Vec<String>,
}

/// A leaf operation: the description of one outbound backend call.
#[derive(Debug)]
pub enum IO {
    Http {
        req_template: RequestTemplate,
        group_by: Option<GroupBy>,
        dl_id: Option<DataLoaderId>,
        is_list: bool,
        dedupe: bool,
        hook: Option<WorkerHooks>,
    },
    GraphQL {
        req_template: RequestTemplate,
        field_name: String,
        batch: bool,
        dl_id: Option<DataLoaderId>,
        dedupe: bool,
    },
    Grpc {
        req_template: RequestTemplate,
        group_by: Option<GroupBy>,
        dl_id: Option<DataLoaderId>,
        dedupe: bool,
        hook: Option<WorkerHooks>,
    },
    /// A call into the embedded script runtime.
    Js { name: String },
}

pub open spec fn group_by_view(g: Option<GroupBy>) -> Option<Seq<String>> {
    match g {
        Some(g) => Some(g@),
        None => None,
    }
}

fn clone_group_by(g: &Option<GroupBy>) -> (r: Option<GroupBy>)
    ensures
        group_by_view(r) == group_by_view(*g),
{
    match g {
        Some(g) => Some(g.clone()),
        None => None,
    }
}

fn clone_hooks(h: &Option<WorkerHooks>) -> (r: Option<WorkerHooks>)
    ensures
        r == *h,
{
    match h {
        Some(h) => Some(h.clone()),
        None => None,
    }
}

/// What a leaf operation holds.
pub enum LeafView {
    Http {
        req_template: TemplateView,
        group_by: Option<Seq<String>>,
        dl_id: Option<DataLoaderId>,
        is_list: bool,
        dedupe: bool,
        hook: Option<WorkerHooks>,
    },
    GraphQL {
        req_template: TemplateView,
        field_name: String,
        batch: bool,
        dl_id: Option<DataLoaderId>,
        dedupe: bool,
    },
    Grpc {
        req_template: TemplateView,
        group_by: Option<Seq<String>>,
        dl_id: Option<DataLoaderId>,
        dedupe: bool,
        hook: Option<WorkerHooks>,
    },
    Js { name: String },
}

impl View for IO {
    type V = LeafView;

    open spec fn view(&self) -> LeafView {
        match self {
            IO::Http { req_template, group_by, dl_id, is_list, dedupe, hook } => LeafView::Http {
                req_template: req_template@,
                group_by: group_by_view(*group_by),
                dl_id: *dl_id,
                is_list: *is_list,
                dedupe: *dedupe,
                hook: *hook,
            },
            IO::GraphQL { req_template, field_name, batch, dl_id, dedupe } => LeafView::GraphQL {
                req_template: req_template@,
                field_name: *field_name,
                batch: *batch,
                dl_id: *dl_id,
                dedupe: *dedupe,
            },
            IO::Grpc { req_template, group_by, dl_id, dedupe, hook } => LeafView::Grpc {
                req_template: req_template@,
                group_by: group_by_view(*group_by),
                dl_id: *dl_id,
                dedupe: *dedupe,
                hook: *hook,
            },
            IO::Js { name } => LeafView::Js { name: *name },
        }
    }
}

impl Clone for IO {
    fn clone(&self) -> (r: Self)
        ensures
            r@ == self@,
    {
        match self {
            IO::Http { req_template, group_by, dl_id, is_list, dedupe, hook } => IO::Http {
                req_template: req_template.clone(),
                group_by: clone_group_by(group_by),
                dl_id: *dl_id,
                is_list: *is_list,
                dedupe: *dedupe,
                hook: clone_hooks(hook),
            },
            IO::GraphQL { req_template, field_name, batch, dl_id, dedupe } => IO::GraphQL {
                req_template: req_template.clone(),
                field_name: field_name.clone(),
                batch: *batch,
                dl_id: *dl_id,
                dedupe: *dedupe,
            },
            IO::Grpc { req_template, group_by, dl_id, dedupe, hook } => IO::Grpc {
                req_template: req_template.clone(),
                group_by: clone_group_by(group_by),
                dl_id: *dl_id,
                dedupe: *dedupe,
                hook: clone_hooks(hook),
            },
            IO::Js { name } => IO::Js { name: name.clone() },
        }
    }
}

impl IO {
    /// Whether identical concurrent calls may be collapsed into one; a
    /// script call never is.
    pub open spec fn spec_dedupe(self) -> bool {
        match self {
            IO::Http { dedupe, .. } => dedupe,
            IO::GraphQL { dedupe, .. } => dedupe,
            IO::Grpc { dedupe, .. } => dedupe,
            IO::Js { .. } => false,
        }
    }

    pub fn dedupe(&self) -> (r: bool)
        ensures
            r == self.spec_dedupe(),
            self is Js ==> !r,
    {
        match self {
            IO::Http { dedupe, .. } => *dedupe,
            IO::GraphQL { dedupe, .. } => *dedupe,
            IO::Grpc { dedupe, .. } => *dedupe,
            IO::Js { .. } => false,
        }
    }
}

/// A leaf operation served through a cache with a freshness window.
#[derive(Debug)]
pub struct Cache {
    pub max_age: FreshnessWindow,
    pub io: Box<IO>,
}

/// Renames the fields of its input's result: each key of `map` is a source
/// field, its value the target name. The keys are unique.
#[derive(Debug)]
pub struct FieldMap {
    pub input: Box<IR>,
    pub map: Vec<(String, String)>,
}

/// A node of the resolution plan. Every composite node owns its children.
#[derive(Debug)]
pub enum IR {
    /// A literal value, produced without a call.
    Dynamic(Value),
    IO(IO),
    Cache(Cache),
    /// Projects the named path out of the child's result.
    Path(Box<IR>, Vec<String>),
    /// Projects the named path out of the ambient request context.
    ContextPath(Vec<String>),
    /// Evaluates the child only when the requirement is met.
    Protect(Auth, Box<IR>),
    FieldMap(FieldMap),
    /// Feeds the first child's result to the second.
    Pipe(Box<IR>, Box<IR>),
    /// Merges the results of its children.
    Merge(Vec<IR>),
    Discriminate(Discriminator, Box<IR>),
    /// Federation entity resolution: one child per type name, names unique.
    Entity(Vec<(String, IR)>),
    /// Federation service resolution: returns the schema text.
    Service(String),
}

/// What a tree holds: the same shape, with sequences for vectors.
pub enum PlanView {
    Dynamic(Value),
    IO(LeafView),
    Cache(FreshnessWindow, LeafView),
    Path(Box<PlanView>, Seq<String>),
    ContextPath(Seq<String>),
    Protect(Auth, Box<PlanView>),
    FieldMap(Box<PlanView>, Seq<(String, String)>),
    Pipe(Box<PlanView>, Box<PlanView>),
    Merge(Seq<PlanView>),
    Discriminate(Seq<String>, Box<PlanView>),
    Entity(Seq<(String, PlanView)>),
    Service(String),
}

pub open spec fn plan_of(t: IR) -> PlanView
    decreases t,
{
    match t {
        IR::Dynamic(v) => PlanView::Dynamic(v),
        IR::IO(io) => PlanView::IO(io@),
        IR::Cache(c) => PlanView::Cache(c.max_age, c.io@),
        IR::Path(c, p) => PlanView::Path(Box::new(plan_of(*c)), p@),
        IR::ContextPath(p) => PlanView::ContextPath(p@),
        IR::Protect(a, c) => PlanView::Protect(a, Box::new(plan_of(*c))),
        IR::FieldMap(m) => PlanView::FieldMap(Box::new(plan_of(*m.input)), m.map@),
        IR::Pipe(a, b) => PlanView::Pipe(Box::new(plan_of(*a)), Box::new(plan_of(*b))),
        IR::Merge(v) => PlanView::Merge(plans_of(v@)),
        IR::Discriminate(d, c) => PlanView::Discriminate(d.types@, Box::new(plan_of(*c))),
        IR::Entity(v) => PlanView::Entity(entry_plans_of(v@)),
        IR::Service(sdl) => PlanView::Service(sdl),
    }
}

pub open spec fn plans_of(s: Seq<IR>) -> Seq<PlanView>
    decreases s,
{
    if s.len() == 0 {
        Seq::empty()
    } else {
        plans_of(s.drop_last()).push(plan_of(s.last()))
    }
}

pub open spec fn entry_plans_of(s: Seq<(String, IR)>) -> Seq<(String, PlanView)>
    decreases s,
{
    if s.len() == 0 {
        Seq::empty()
    } else {
        entry_plans_of(s.drop_last()).push((s.last().0, plan_of(s.last().1)))
    }
}

impl View for IR {
    type V = PlanView;

    open spec fn view(&self) -> PlanView {
        plan_of(*self)
    }
}

/// No two entries share a name.
pub open spec fn names_unique<V>(s: Seq<(String, V)>) -> bool {
    forall|i: int, j: int| 0 <= i < j < s.len() ==> s[i].0 != s[j].0
}

/// The tree's invariant: the names of every field map and every entity
/// node are unique.
pub open spec fn plan_well_formed(p: PlanView) -> bool
    decreases p,
{
    match p {
        PlanView::Path(c, _) => plan_well_formed(*c),
        PlanView::Protect(_, c) => plan_well_formed(*c),
        PlanView::FieldMap(c, m) => names_unique(m) && plan_well_formed(*c),
        PlanView::Pipe(a, b) => plan_well_formed(*a) && plan_well_formed(*b),
        PlanView::Merge(s) => plans_well_formed(s),
        PlanView::Discriminate(_, c) => plan_well_formed(*c),
        PlanView::Entity(s) => names_unique(s) && entries_well_formed(s),
        _ => true,
    }
}

pub open spec fn plans_well_formed(s: Seq<PlanView>) -> bool
    decreases s,
{
    s.len() == 0 || (plans_well_formed(s.drop_last()) && plan_well_formed(s.last()))
}

pub open spec fn entries_well_formed(s: Seq<(String, PlanView)>) -> bool
    decreases s,
{
    s.len() == 0 || (entries_well_formed(s.drop_last()) && plan_well_formed(s.last().1))
}

impl IR {
    pub open spec fn well_formed(self) -> bool {
        plan_well_formed(self@)
    }
}

} // verus!
