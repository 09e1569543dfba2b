use crate::model::{IoId, RequestTemplate, Segment, SegmentView, TemplateView, IO};
use std::collections::hash_map::DefaultHasher;
use std::hash::Hasher;
use vstd::prelude::*;
use vstd::std_specs::hash::DefaultHasherAdditionalSpecFns;

verus! {

/// The request-scoped data that a template resolves against: the value of
/// each positional argument, `None` while it is not available.
pub struct EvalContext {
    pub args: Vec<Option<Vec<u8>>>,
}

pub open spec fn arg_view(a: Option<Vec<u8>>) -> Option<Seq<u8>> {
    match a {
        Some(v) => Some(v@),
        None => None,
    }
}

impl View for EvalContext {
    type V = Seq<Option<Seq<u8>>>;

    open spec fn view(&self) -> Seq<Option<Seq<u8>>> {
        self.args@.map_values(|a: Option<Vec<u8>>| arg_view(a))
    }
}

/// The pieces of the request that `segments` make under `args`, or `None`
/// when one of the arguments they use is not available.
pub open spec fn resolved_segments(segments: Seq<SegmentView>, args: Seq<Option<Seq<u8>>>) -> Option<
    Seq<Seq<u8>>,
>
    decreases segments,
{
    if segments.len() == 0 {
        Some(Seq::empty())
    } else {
        match resolved_segments(segments.drop_last(), args) {
            None => None,
            Some(parts) => match segments.last() {
                SegmentView::Literal(bytes) => Some(parts.push(bytes)),
                SegmentView::Arg(i) => if i < args.len() && args[i as int] is Some {
                    Some(parts.push(args[i as int]->0))
                } else {
                    None
                },
            },
        }
    }
}

/// The resolved request of a template, when it is cacheable and every
/// argument it uses is available.
pub open spec fn resolved_request(t: TemplateView, args: Seq<Option<Seq<u8>>>) -> Option<
    Seq<Seq<u8>>,
> {
    if t.cacheable {
        resolved_segments(t.segments, args)
    } else {
        None
    }
}

/// The identifier of a template under a context: the default hasher's
/// digest of the resolved request's pieces, one write each.
pub open spec fn template_key(t: TemplateView, args: Seq<Option<Seq<u8>>>) -> Option<IoId> {
    match resolved_request(t, args) {
        Some(parts) => Some(IoId(DefaultHasher::spec_finish(parts))),
        None => None,
    }
}

/// Derives the cache identifier of an operation under an evaluation
/// context, or `None` when the operation cannot be cached there.
pub trait CacheKey<Ctx> {
    spec fn spec_cache_key(&self, ctx: &Ctx) -> Option<IoId>;

    fn cache_key(&self, ctx: &Ctx) -> (r: Option<IoId>)
        ensures
            r == self.spec_cache_key(ctx),
    ;
}

impl CacheKey<EvalContext> for RequestTemplate {
    open spec fn spec_cache_key(&self, ctx: &EvalContext) -> Option<IoId> {
        template_key(self@, ctx@)
    }

    fn cache_key(&self, ctx: &EvalContext) -> (r: Option<IoId>) {
        if !self.cacheable {
            return None;
        }
        let mut hasher = DefaultHasher::new();
        let mut i: usize = 0;
        while i < self.segments.len()
            invariant
                i <= self.segments.len(),
                resolved_segments(self@.segments.take(i as int), ctx@) == Some(hasher@),
            decreases self.segments.len() - i,
        {
            assert(self@.segments.take(i + 1).drop_last() =~= self@.segments.take(i as int));
            match &self.segments[i] {
                Segment::Literal(bytes) => {
                    hasher.write(bytes.as_slice());
                },
                Segment::Arg(k) => {
                    if *k < ctx.args.len() {
                        match &ctx.args[*k] {
                            Some(value) => {
                                hasher.write(value.as_slice());
                            },
                            None => {
                                proof {
                                    lemma_unresolved_stays(self@.segments, ctx@, i as int + 1);
                                }
                                return None;
                            },
                        }
                    } else {
                        proof {
                            lemma_unresolved_stays(self@.segments, ctx@, i as int + 1);
                        }
                        return None;
                    }
                },
            }
            i += 1;
        }
        assert(self@.segments.take(i as int) =~= self@.segments);
        Some(IoId(hasher.finish()))
    }
}

/// Once a prefix of the segments fails to resolve, every longer one fails.
proof fn lemma_unresolved_stays(s: Seq<SegmentView>, args: Seq<Option<Seq<u8>>>, n: int)
    requires
        0 <= n <= s.len(),
        resolved_segments(s.take(n), args) is None,
    ensures
        resolved_segments(s, args) is None,
    decreases s.len() - n,
{
    if n < s.len() {
        assert(s.take(n + 1).drop_last() =~= s.take(n));
        lemma_unresolved_stays(s, args, n + 1);
    } else {
        assert(s.take(n) =~= s);
    }
}

impl IO {
    /// The template of a backend call; a script call has none.
    pub open spec fn template(self) -> Option<TemplateView> {
        match self {
            IO::Http { req_template, .. } => Some(req_template@),
            IO::GraphQL { req_template, .. } => Some(req_template@),
            IO::Grpc { req_template, .. } => Some(req_template@),
            IO::Js { .. } => None,
        }
    }
}

impl CacheKey<EvalContext> for IO {
    open spec fn spec_cache_key(&self, ctx: &EvalContext) -> Option<IoId> {
        match self.template() {
            Some(t) => template_key(t, ctx@),
            None => None,
        }
    }

    fn cache_key(&self, ctx: &EvalContext) -> (r: Option<IoId>) {
        match self {
            IO::Http { req_template, .. } => req_template.cache_key(ctx),
            IO::Grpc { req_template, .. } => req_template.cache_key(ctx),
            IO::GraphQL { req_template, .. } => req_template.cache_key(ctx),
            IO::Js { .. } => None,
        }
    }
}

/// Two contexts under which a backend call resolves to the same request
/// give it the same identifier; a call that does not resolve, or a script
/// call, gets none.
pub proof fn lemma_cache_key_deterministic(io: IO, c1: EvalContext, c2: EvalContext)
    ensures
        io.template() matches Some(t) ==> (resolved_request(t, c1@) is Some && resolved_request(
            t,
            c1@,
        ) == resolved_request(t, c2@) ==> io.spec_cache_key(&c1) is Some && io.spec_cache_key(&c1)
            == io.spec_cache_key(&c2)),
        io.template() matches Some(t) ==> (resolved_request(t, c1@) is None <==> io.spec_cache_key(
            &c1,
        ) is None),
        io.template() is None ==> io.spec_cache_key(&c1) is None,
{
}

} // verus!
