//! Integral Flow with Bundles: an integral flow meeting a requirement at the
//! sink in which the flow on each bundle of arcs stays within its capacity.
use vstd::prelude::*;
use crate::models::graph::acyclic_partition::max_endpoint_plus_one;
use crate::models::graph::{directed_graph_from_create, listed_vertex_count};
use crate::sums::{fits64, checked_fold, lemma_fold_push};
use crate::topology::DirectedGraph;
use crate::types::{ConstructionError, EvaluationError, Or};

verus! {

/// The smallest capacity of the first `k` bundles that contain arc `a`
/// (`i64::MAX` when none does).
pub open spec fn arc_bound(bundles: Seq<Seq<usize>>, caps: Seq<i64>, a: int, k: int) -> int
    decreases k,
{
    if k <= 0 {
        i64::MAX as int
    } else {
        let prev = arc_bound(bundles, caps, a, k - 1);
        if bundles[k - 1].contains(a as usize) && (caps[k - 1] as int) < prev { caps[k - 1] as int } else { prev }
    }
}

/// Some bundle contains arc `a`.
pub open spec fn covered(bundles: Seq<Seq<usize>>, a: int) -> bool {
    exists|i: int| 0 <= i < bundles.len() && #[trigger] bundles[i].contains(a as usize)
}

/// The first of `issues` that is an error, if any.
pub open spec fn first_issue(issues: Seq<Option<ConstructionError>>) -> Option<ConstructionError>
    decreases issues.len(),
{
    if issues.len() == 0 {
        None
    } else {
        match issues[0] {
            Some(e) => Some(e),
            None => first_issue(issues.drop_first()),
        }
    }
}

proof fn lemma_first_issue(issues: Seq<Option<ConstructionError>>, i: int)
    requires
        0 <= i <= issues.len(),
        forall|j: int| 0 <= j < i ==> (#[trigger] issues[j]) is None,
    ensures
        i < issues.len() && issues[i] is Some ==> first_issue(issues) == issues[i],
        i == issues.len() ==> first_issue(issues) is None,
    decreases i,
{
    if i > 0 {
        assert forall|j: int| 0 <= j < i - 1 implies (#[trigger] issues.drop_first()[j]) is None by {
            assert(issues.drop_first()[j] == issues[j + 1]);
        }
        lemma_first_issue(issues.drop_first(), i - 1);
    } else if issues.len() > 0 {
    }
}

/// What is wrong with entry `j` of a bundle: an arc out of range, or one listed before in it.
pub open spec fn entry_issue(bundle: Seq<usize>, m: nat, j: int) -> Option<ConstructionError> {
    if bundle[j] >= m {
        Some(ConstructionError::OutOfRange)
    } else if exists|x: int| 0 <= x < j && #[trigger] bundle[x] == bundle[j] {
        Some(ConstructionError::InvalidValue)
    } else {
        None
    }
}

/// What is wrong with bundle `i`: a capacity that is not positive, else its first bad entry.
pub open spec fn bundle_issue(bundles: Seq<Seq<usize>>, caps: Seq<i64>, m: nat, i: int) -> Option<ConstructionError> {
    if caps[i] <= 0 {
        Some(ConstructionError::InvalidValue)
    } else {
        first_issue(Seq::new(bundles[i].len(), |j: int| entry_issue(bundles[i], m, j)))
    }
}

/// What is wrong with arc `a`: no bundle covers it, or its bound plus one leaves `usize`.
pub open spec fn arc_issue(bundles: Seq<Seq<usize>>, caps: Seq<i64>, a: int) -> Option<ConstructionError> {
    if !covered(bundles, a) {
        Some(ConstructionError::InvalidValue)
    } else if arc_bound(bundles, caps, a, bundles.len() as int) + 1 > usize::MAX {
        Some(ConstructionError::OutOfRange)
    } else {
        None
    }
}

/// The error that building an instance reports, in the order of the checks:
/// source or sink out of range, equal source and sink, bundle and capacity
/// counts differing, a requirement that is not positive, then the first bad
/// bundle, then the first bad arc.
pub open spec fn bundles_issue(g: DirectedGraph, s: usize, t: usize, bundles: Seq<Seq<usize>>, caps: Seq<i64>, req: i64)
    -> Option<ConstructionError>
{
    let m = g.arc_seq().len();
    if s >= g.n() || t >= g.n() {
        Some(ConstructionError::OutOfRange)
    } else if s == t {
        Some(ConstructionError::InvalidValue)
    } else if bundles.len() != caps.len() {
        Some(ConstructionError::LengthMismatch)
    } else if req <= 0 {
        Some(ConstructionError::InvalidValue)
    } else {
        match first_issue(Seq::new(bundles.len(), |i: int| bundle_issue(bundles, caps, m, i))) {
            Some(e) => Some(e),
            None => first_issue(Seq::new(m, |a: int| arc_issue(bundles, caps, a))),
        }
    }
}

/// The bundles as sequences.
pub open spec fn bundles_view(b: Seq<Vec<usize>>) -> Seq<Seq<usize>> {
    b.map_values(|x: Vec<usize>| x@)
}

/// The net inflow of `vertex` from the first `k` arcs, in arc order, with
/// checked `i64` steps (`None` on overflow).
pub open spec fn vertex_balance_spec(arcs: Seq<(usize, usize)>, flow: Seq<usize>, vertex: int, k: int) -> Option<int>
    decreases k,
{
    if k <= 0 {
        Some(0)
    } else {
        match vertex_balance_spec(arcs, flow, vertex, k - 1) {
            None => None,
            Some(b) => {
                let (u, v) = arcs[k - 1];
                let f = flow[k - 1] as int;
                let b1 = if vertex == u { b - f } else { b };
                if vertex == u && !fits64(b1) {
                    None
                } else {
                    let b2 = if vertex == v { b1 + f } else { b1 };
                    if vertex == v && !fits64(b2) { None } else { Some(b2) }
                }
            },
        }
    }
}

/// The flows of a bundle's arcs.
pub open spec fn bundle_flows(bundle: Seq<usize>, flow: Seq<usize>) -> Seq<int> {
    Seq::new(bundle.len(), |j: int| flow[bundle[j] as int] as int)
}

/// Checking the first `k` vertices other than source and sink, in order: an
/// overflow error when a balance overflows, `false` at the first unbalanced one.
pub open spec fn conservation(arcs: Seq<(usize, usize)>, flow: Seq<usize>, s: int, t: int, k: int) -> Result<bool, EvaluationError>
    decreases k,
{
    if k <= 0 {
        Ok(true)
    } else {
        match conservation(arcs, flow, s, t, k - 1) {
            Ok(true) => if k - 1 == s || k - 1 == t {
                Ok(true)
            } else {
                match vertex_balance_spec(arcs, flow, k - 1, arcs.len() as int) {
                    None => Err(EvaluationError::IntegerOverflow),
                    Some(b) => Ok(b == 0),
                }
            },
            other => other,
        }
    }
}

proof fn lemma_conservation_stop(arcs: Seq<(usize, usize)>, flow: Seq<usize>, s: int, t: int, a: int, b: int)
    requires
        0 <= a <= b,
        conservation(arcs, flow, s, t, a) != Ok::<bool, EvaluationError>(true),
    ensures
        conservation(arcs, flow, s, t, b) == conservation(arcs, flow, s, t, a),
    decreases b - a,
{
    if a < b {
        lemma_conservation_stop(arcs, flow, s, t, a, b - 1);
    }
}

/// The value of a flow: an error for the wrong number of flows or an
/// overflowing balance; `false` when an arc's flow passes its bound, a
/// bundle's flow (summed in `i64`) passes its capacity or overflows, or an
/// inner vertex is unbalanced; otherwise whether the sink's net inflow reaches `req`.
pub open spec fn bundles_result(g: DirectedGraph, s: int, t: int, bundles: Seq<Seq<usize>>, caps: Seq<i64>, req: int,
    flow: Seq<usize>) -> Result<Or, EvaluationError>
{
    let m = g.arc_seq().len();
    if flow.len() != m {
        Err(EvaluationError::InvalidConfiguration)
    } else if exists|a: int| 0 <= a < m && #[trigger] flow[a] as int > arc_bound(bundles, caps, a, bundles.len() as int) {
        Ok(Or(false))
    } else if exists|i: int| 0 <= i < bundles.len() && !(checked_fold(#[trigger] bundle_flows(bundles[i], flow), i64::MIN as int, i64::MAX as int)
        matches Some(total) && total <= caps[i]) {
        Ok(Or(false))
    } else {
        match conservation(g.arc_seq(), flow, s, t, g.n() as int) {
            Err(e) => Err(e),
            Ok(false) => Ok(Or(false)),
            Ok(true) => match vertex_balance_spec(g.arc_seq(), flow, t, m as int) {
                None => Err(EvaluationError::IntegerOverflow),
                Some(b) => Ok(Or(b >= req)),
            },
        }
    }
}

/// Given a directed graph, a source, a sink, bundles of arcs with
/// capacities and a requirement, decide whether an integral flow keeping
/// every bundle within its capacity brings the requirement to the sink.
#[derive(Debug, Clone)]
pub struct IntegralFlowBundles {
    graph: DirectedGraph,
    source: usize,
    sink: usize,
    bundles: Vec<Vec<usize>>,
    bundle_capacities: Vec<i64>,
    requirement: i64,
}

impl IntegralFlowBundles {
    /// The graph.
    pub closed spec fn spec_graph(&self) -> DirectedGraph {
        self.graph
    }

    /// The source.
    pub closed spec fn spec_source(&self) -> usize {
        self.source
    }

    /// The sink.
    pub closed spec fn spec_sink(&self) -> usize {
        self.sink
    }

    /// The bundles.
    pub closed spec fn spec_bundles(&self) -> Seq<Seq<usize>> {
        bundles_view(self.bundles@)
    }

    /// The bundle capacities.
    pub closed spec fn spec_capacities(&self) -> Seq<i64> {
        self.bundle_capacities@
    }

    /// The requirement at the sink.
    pub closed spec fn spec_requirement(&self) -> i64 {
        self.requirement
    }

    /// A well-formed graph and an instance without issues.
    pub open spec fn wf(&self) -> bool {
        &&& self.spec_graph().wf()
        &&& bundles_issue(self.spec_graph(), self.spec_source(), self.spec_sink(), self.spec_bundles(),
            self.spec_capacities(), self.spec_requirement()) is None
    }

    /// Creates an instance; panics on any issue.
    pub fn new(graph: DirectedGraph, source: usize, sink: usize, bundles: Vec<Vec<usize>>, bundle_capacities: Vec<i64>,
        requirement: i64) -> (r: Self)
        requires
            graph.wf(),
            bundles_issue(graph, source, sink, bundles_view(bundles@), bundle_capacities@, requirement) is None,
        ensures
            r.wf(),
            r.spec_graph() == graph,
            r.spec_source() == source,
            r.spec_sink() == sink,
            r.spec_bundles() == bundles_view(bundles@),
            r.spec_capacities() == bundle_capacities@,
            r.spec_requirement() == requirement,
    {
        IntegralFlowBundles { graph, source, sink, bundles, bundle_capacities, requirement }
    }

    /// Builds an instance from listed parts: the graph from a non-empty arc
    /// list and an optional vertex count as by `directed_graph_from_create`,
    /// then the checks of [`IntegralFlowBundles::try_new`].
    pub fn try_from_spec(arcs: Vec<(usize, usize)>, num_vertices: Option<usize>, bundles: Vec<Vec<usize>>,
        bundle_capacities: Vec<i64>, source: usize, sink: usize, requirement: i64) -> (r: Result<IntegralFlowBundles, ConstructionError>)
        ensures
            arcs@.len() == 0 ==> r == Err::<IntegralFlowBundles, ConstructionError>(ConstructionError::InvalidValue),
            !(arcs@.len() > 0 && max_endpoint_plus_one(arcs@, arcs@.len() as int) <= usize::MAX
                && max_endpoint_plus_one(arcs@, arcs@.len() as int) <= listed_vertex_count(arcs@, num_vertices)) ==> r is Err,
            arcs@.len() > 0 && max_endpoint_plus_one(arcs@, arcs@.len() as int) <= usize::MAX
                && max_endpoint_plus_one(arcs@, arcs@.len() as int) <= listed_vertex_count(arcs@, num_vertices)
                ==> exists|g: DirectedGraph| {
                    &&& g.wf()
                    &&& g.n() == listed_vertex_count(arcs@, num_vertices)
                    &&& #[trigger] g.arc_seq() == arcs@
                    &&& r matches Err(e) ==> bundles_issue(g, source, sink, bundles_view(bundles@), bundle_capacities@, requirement) == Some(e)
                    &&& r is Ok <==> bundles_issue(g, source, sink, bundles_view(bundles@), bundle_capacities@, requirement) is None
                    &&& r matches Ok(p) ==> p.wf() && p.spec_graph() == g && p.spec_source() == source && p.spec_sink() == sink
                        && p.spec_bundles() == bundles_view(bundles@) && p.spec_capacities() == bundle_capacities@
                        && p.spec_requirement() == requirement
                },
    {
        let ghost listed = arcs@;
        let graph = match directed_graph_from_create(arcs, num_vertices) {
            Ok(g) => g,
            Err(e) => return Err(e),
        };
        let ghost g = graph;
        let r = IntegralFlowBundles::try_new(graph, source, sink, bundles, bundle_capacities, requirement);
        assert(g.arc_seq() == listed);
        r
    }

    /// Creates an instance, or the error of the first check that fails.
    #[verifier::loop_isolation(false)]
    pub fn try_new(graph: DirectedGraph, source: usize, sink: usize, bundles: Vec<Vec<usize>>, bundle_capacities: Vec<i64>,
        requirement: i64) -> (r: Result<Self, ConstructionError>)
        requires
            graph.wf(),
        ensures
            r matches Err(e) ==> bundles_issue(graph, source, sink, bundles_view(bundles@), bundle_capacities@, requirement) == Some(e),
            r is Ok <==> bundles_issue(graph, source, sink, bundles_view(bundles@), bundle_capacities@, requirement) is None,
            r matches Ok(p) ==> p.wf() && p.spec_graph() == graph && p.spec_source() == source && p.spec_sink() == sink
                && p.spec_bundles() == bundles_view(bundles@) && p.spec_capacities() == bundle_capacities@
                && p.spec_requirement() == requirement,
    {
        let n = graph.num_vertices();
        let m = graph.num_arcs();
        let ghost bv = bundles_view(bundles@);
        if source >= n || sink >= n {
            return Err(ConstructionError::OutOfRange);
        }
        if source == sink {
            return Err(ConstructionError::InvalidValue);
        }
        if bundles.len() != bundle_capacities.len() {
            return Err(ConstructionError::LengthMismatch);
        }
        if requirement <= 0 {
            return Err(ConstructionError::InvalidValue);
        }
        let ghost bis = Seq::new(bv.len(), |i: int| bundle_issue(bv, bundle_capacities@, m as nat, i));
        let mut i: usize = 0;
        while i < bundles.len()
            invariant
                i <= bv.len(),
                bv.len() == bundles@.len(),
                forall|x: int| 0 <= x < i ==> (#[trigger] bis[x]) is None,
            decreases bundles.len() - i,
        {
            let bundle = &bundles[i];
            assert(bundle@ == bv[i as int]);
            if bundle_capacities[i] <= 0 {
                proof { lemma_first_issue(bis, i as int); }
                return Err(ConstructionError::InvalidValue);
            }
            let ghost eis = Seq::new(bundle@.len(), |j: int| entry_issue(bundle@, m as nat, j));
            let mut j: usize = 0;
            while j < bundle.len()
                invariant
                    j <= bundle@.len(),
                    forall|x: int| 0 <= x < j ==> (#[trigger] eis[x]) is None,
                decreases bundle.len() - j,
            {
                let a = bundle[j];
                if a >= m {
                    proof {
                        lemma_first_issue(eis, j as int);
                        lemma_first_issue(bis, i as int);
                    }
                    return Err(ConstructionError::OutOfRange);
                }
                let mut x: usize = 0;
                while x < j
                    invariant
                        x <= j,
                        forall|y: int| 0 <= y < x ==> bundle@[y] != a,
                    decreases j - x,
                {
                    if bundle[x] == a {
                        proof {
                            assert(eis[j as int] == Some(ConstructionError::InvalidValue));
                            lemma_first_issue(eis, j as int);
                            lemma_first_issue(bis, i as int);
                        }
                        return Err(ConstructionError::InvalidValue);
                    }
                    x += 1;
                }
                assert(eis[j as int] is None);
                j += 1;
            }
            proof { lemma_first_issue(eis, bundle@.len() as int); }
            i += 1;
        }
        proof {
            lemma_first_issue(bis, bv.len() as int);
            assert forall|x: int| 0 <= x < bv.len() implies (#[trigger] bundle_issue(bv, bundle_capacities@, m as nat, x)) is None by {
                assert(bis[x] is None);
            }
            lemma_entries_ok(bv, bundle_capacities@, m as nat);
            assert forall|i: int, j: int| 0 <= i < bundles@.len() && 0 <= j < bundles@[i]@.len()
                implies #[trigger] bundles@[i]@[j] < m by {
                assert(bv[i] == bundles@[i]@);
            }
        }
        let bounds = Self::upper_bounds_of(&bundles, &bundle_capacities, m);
        let ghost ais = Seq::new(m as nat, |a: int| arc_issue(bv, bundle_capacities@, a));
        let mut a: usize = 0;
        while a < m
            invariant
                a <= m,
                bounds@.len() == m,
                forall|y: int| 0 <= y < m ==> #[trigger] bounds@[y] as int == arc_bound(bv, bundle_capacities@, y, bv.len() as int),
                forall|y: int| 0 <= y < a ==> (#[trigger] ais[y]) is None,
            decreases m - a,
        {
            if !Self::arc_covered(&bundles, a) {
                proof { lemma_first_issue(ais, a as int); }
                return Err(ConstructionError::InvalidValue);
            }
            let ub = bounds[a];
            if ub < 0 || (ub as u64) >= (usize::MAX as u64) {
                proof {
                    lemma_bound_positive(bv, bundle_capacities@, a as int, bv.len() as int);
                    assert(covered(bv, a as int));
                    assert(ub as int == arc_bound(bv, bundle_capacities@, a as int, bv.len() as int));
                    lemma_first_issue(ais, a as int);
                }
                return Err(ConstructionError::OutOfRange);
            }
            a += 1;
        }
        proof { lemma_first_issue(ais, m as int); }
        Ok(IntegralFlowBundles { graph, source, sink, bundles, bundle_capacities, requirement })
    }

    /// Whether some bundle contains arc `a`.
    fn arc_covered(bundles: &Vec<Vec<usize>>, a: usize) -> (r: bool)
        ensures
            r == covered(bundles_view(bundles@), a as int),
    {
        let ghost bv = bundles_view(bundles@);
        let mut i: usize = 0;
        while i < bundles.len()
            invariant
                bv == bundles_view(bundles@),
                i <= bundles@.len(),
                forall|x: int| 0 <= x < i ==> !(#[trigger] bv[x]).contains(a),
            decreases bundles.len() - i,
        {
            let bundle = &bundles[i];
            assert(bundle@ == bv[i as int]);
            let mut j: usize = 0;
            while j < bundle.len()
                invariant
                    bv == bundles_view(bundles@),
                    i < bundles@.len(),
                    bundle@ == bv[i as int],
                    j <= bundle@.len(),
                    forall|y: int| 0 <= y < j ==> bundle@[y] != a,
                decreases bundle.len() - j,
            {
                if bundle[j] == a {
                    assert(bv[i as int][j as int] == a);
                    assert(bv[i as int].contains(a));
                    assert(bv[i as int].contains((a as int) as usize));
                    return true;
                }
                j += 1;
            }
            i += 1;
        }
        false
    }

    /// Every arc's bound: the smallest capacity of a bundle containing it.
    fn upper_bounds_of(bundles: &Vec<Vec<usize>>, caps: &Vec<i64>, m: usize) -> (r: Vec<i64>)
        requires
            bundles@.len() == caps@.len(),
            forall|i: int, j: int| 0 <= i < bundles@.len() && 0 <= j < bundles@[i]@.len() ==> #[trigger] bundles@[i]@[j] < m,
        ensures
            r@.len() == m,
            forall|a: int| 0 <= a < m ==> #[trigger] r@[a] as int == arc_bound(bundles_view(bundles@), caps@, a, bundles@.len() as int),
    {
        let ghost bv = bundles_view(bundles@);
        let mut ub: Vec<i64> = Vec::new();
        let mut x: usize = 0;
        while x < m
            invariant
                x <= m,
                ub@.len() == x,
                forall|y: int| 0 <= y < x ==> #[trigger] ub@[y] == i64::MAX,
            decreases m - x,
        {
            ub.push(i64::MAX);
            x += 1;
        }
        let mut i: usize = 0;
        while i < bundles.len()
            invariant
                bv == bundles_view(bundles@),
                bundles@.len() == caps@.len(),
                forall|b: int, j: int| 0 <= b < bundles@.len() && 0 <= j < bundles@[b]@.len() ==> #[trigger] bundles@[b]@[j] < m,
                i <= bundles@.len(),
                ub@.len() == m,
                forall|a: int| 0 <= a < m ==> #[trigger] ub@[a] as int == arc_bound(bv, caps@, a, i as int),
            decreases bundles.len() - i,
        {
            let bundle = &bundles[i];
            assert(bundle@ == bv[i as int]);
            let cap = caps[i];
            let mut j: usize = 0;
            while j < bundle.len()
                invariant
                    bv == bundles_view(bundles@),
                    i < bundles@.len(),
                    bundles@.len() == caps@.len(),
                    bundle@ == bv[i as int],
                    cap == caps@[i as int],
                    forall|b: int, k: int| 0 <= b < bundles@.len() && 0 <= k < bundles@[b]@.len() ==> #[trigger] bundles@[b]@[k] < m,
                    j <= bundle@.len(),
                    ub@.len() == m,
                    forall|a: int| 0 <= a < m ==> #[trigger] ub@[a] as int == if bundle@.take(j as int).contains(a as usize) && (cap as int) < arc_bound(bv, caps@, a, i as int) {
                        cap as int
                    } else {
                        arc_bound(bv, caps@, a, i as int)
                    },
                decreases bundle.len() - j,
            {
                let a = bundle[j];
                assert(bundles@[i as int]@[j as int] < m);
                let ghost before = ub@;
                if cap < ub[a] {
                    ub.set(a, cap);
                }
                proof {
                    assert forall|y: int| 0 <= y < m implies #[trigger] ub@[y] as int == if bundle@.take(j as int + 1).contains(y as usize) && (cap as int) < arc_bound(bv, caps@, y, i as int) {
                        cap as int
                    } else {
                        arc_bound(bv, caps@, y, i as int)
                    } by {
                        assert(bundle@.take(j as int + 1) =~= bundle@.take(j as int).push(a));
                        vstd::seq_lib::lemma_seq_contains_after_push(bundle@.take(j as int), a, y as usize);
                    }
                }
                j += 1;
            }
            assert(bundle@.take(bundle@.len() as int) =~= bundle@);
            i += 1;
        }
        ub
    }

    /// The graph.
    pub fn graph(&self) -> (r: &DirectedGraph)
        ensures
            *r == self.spec_graph(),
    {
        &self.graph
    }

    /// The source.
    pub fn source(&self) -> (r: usize)
        ensures
            r == self.spec_source(),
    {
        self.source
    }

    /// The sink.
    pub fn sink(&self) -> (r: usize)
        ensures
            r == self.spec_sink(),
    {
        self.sink
    }

    /// The bundles.
    pub fn bundles(&self) -> (r: &[Vec<usize>])
        ensures
            bundles_view(r@) == self.spec_bundles(),
    {
        self.bundles.as_slice()
    }

    /// The bundle capacities.
    pub fn bundle_capacities(&self) -> (r: &[i64])
        ensures
            r@ == self.spec_capacities(),
    {
        self.bundle_capacities.as_slice()
    }

    /// The requirement at the sink.
    pub fn requirement(&self) -> (r: i64)
        ensures
            r == self.spec_requirement(),
    {
        self.requirement
    }

    /// Number of vertices.
    pub fn num_vertices(&self) -> (r: usize)
        ensures
            r == self.spec_graph().n(),
    {
        self.graph.num_vertices()
    }

    /// Number of arcs.
    pub fn num_arcs(&self) -> (r: usize)
        ensures
            r == self.spec_graph().arc_seq().len(),
    {
        self.graph.num_arcs()
    }

    /// Number of bundles.
    pub fn num_bundles(&self) -> (r: usize)
        ensures
            r == self.spec_bundles().len(),
    {
        self.bundles.len()
    }

    /// The net inflow of `vertex`, or an overflow error.
    fn vertex_balance(&self, config: &[usize], vertex: usize) -> (r: Result<i64, EvaluationError>)
        requires
            config@.len() == self.spec_graph().arc_seq().len(),
            forall|a: int| 0 <= a < config@.len() ==> #[trigger] config@[a] <= i64::MAX,
        ensures
            r == (match vertex_balance_spec(self.spec_graph().arc_seq(), config@, vertex as int, config@.len() as int) {
                None => Err::<i64, EvaluationError>(EvaluationError::IntegerOverflow),
                Some(b) => Ok::<i64, EvaluationError>(b as i64),
            }),
            r matches Ok(b) ==> vertex_balance_spec(self.spec_graph().arc_seq(), config@, vertex as int, config@.len() as int) == Some(b as int),
    {
        let arcs = self.graph.arc_list();
        let mut balance: i64 = 0;
        let mut k: usize = 0;
        while k < arcs.len()
            invariant
                arcs@ == self.spec_graph().arc_seq(),
                config@.len() == arcs@.len(),
                forall|a: int| 0 <= a < config@.len() ==> #[trigger] config@[a] <= i64::MAX,
                k <= arcs@.len(),
                vertex_balance_spec(arcs@, config@, vertex as int, k as int) == Some(balance as int),
            decreases arcs.len() - k,
        {
            let (u, v) = arcs[k];
            assert(arcs@[k as int] == (u, v));
            assert(config@[k as int] <= i64::MAX);
            let f = config[k] as i64;
            if vertex == u {
                match balance.checked_sub(f) {
                    None => {
                        proof { lemma_balance_none(arcs@, config@, vertex as int, k as int + 1, arcs@.len() as int); }
                        return Err(EvaluationError::IntegerOverflow);
                    },
                    Some(b) => { balance = b; },
                }
            }
            if vertex == v {
                match balance.checked_add(f) {
                    None => {
                        proof { lemma_balance_none(arcs@, config@, vertex as int, k as int + 1, arcs@.len() as int); }
                        return Err(EvaluationError::IntegerOverflow);
                    },
                    Some(b) => { balance = b; },
                }
            }
            k += 1;
        }
        Ok(balance)
    }

    /// Whether the arc flows are a feasible flow, with the errors of
    /// [`IntegralFlowBundles::evaluate`].
    pub fn is_valid_solution(&self, config: &Vec<usize>) -> (r: Result<bool, EvaluationError>)
        requires
            self.wf(),
        ensures
            r == (match bundles_result(self.spec_graph(), self.spec_source() as int, self.spec_sink() as int,
                self.spec_bundles(), self.spec_capacities(), self.spec_requirement() as int, config@) {
                Ok(v) => Ok::<bool, EvaluationError>(v.0),
                Err(e) => Err(e),
            }),
    {
        match self.evaluate(config) {
            Ok(v) => Ok(v.0),
            Err(e) => Err(e),
        }
    }

    /// Whether `config` is a valid flow; an error for the wrong number of
    /// flows or an overflowing balance.
    #[verifier::loop_isolation(false)]
    pub fn evaluate(&self, config: &Vec<usize>) -> (r: Result<Or, EvaluationError>)
        requires
            self.wf(),
        ensures
            r == bundles_result(self.spec_graph(), self.spec_source() as int, self.spec_sink() as int, self.spec_bundles(),
                self.spec_capacities(), self.spec_requirement() as int, config@),
    {
        let ghost g = self.spec_graph();
        let ghost bv = self.spec_bundles();
        let m = self.graph.num_arcs();
        if config.len() != m {
            return Err(EvaluationError::InvalidConfiguration);
        }
        proof { self.lemma_entries_in_range(); }
        let bounds = Self::upper_bounds_of(&self.bundles, &self.bundle_capacities, m);
        let mut a: usize = 0;
        while a < m
            invariant
                a <= m,
                forall|y: int| 0 <= y < a ==> #[trigger] config@[y] as int <= arc_bound(bv, self.bundle_capacities@, y, bv.len() as int),
            decreases m - a,
        {
            let value = config[a];
            proof {
                lemma_bound_at_most_max(bv, self.bundle_capacities@, a as int, bv.len() as int);
                assert(bounds@[a as int] as int == arc_bound(bv, self.bundle_capacities@, a as int, bv.len() as int));
            }
            if (value as u64) > 9223372036854775807u64 || (value as i64) > bounds[a] {
                assert(config@[a as int] as int > arc_bound(bv, self.bundle_capacities@, a as int, bv.len() as int));
                return Ok(Or(false));
            }
            a += 1;
        }
        assert forall|y: int| 0 <= y < m implies #[trigger] config@[y] <= i64::MAX by {
            lemma_bound_at_most_max(bv, self.bundle_capacities@, y, bv.len() as int);
        }
        let mut i: usize = 0;
        while i < self.bundles.len()
            invariant
                i <= bv.len(),
                bv.len() == self.bundles@.len(),
                forall|x: int| 0 <= x < i ==> (checked_fold(#[trigger] bundle_flows(bv[x], config@), i64::MIN as int, i64::MAX as int)
                    matches Some(total) && total <= self.bundle_capacities@[x]),
            decreases self.bundles.len() - i,
        {
            let bundle = &self.bundles[i];
            assert(bundle@ == bv[i as int]);
            let ghost fl = bundle_flows(bv[i as int], config@);
            let mut total: i64 = 0;
            let mut j: usize = 0;
            assert(fl.take(0) =~= Seq::<int>::empty());
            while j < bundle.len()
                invariant
                    j <= bundle@.len(),
                    fl.len() == bundle@.len(),
                    checked_fold(fl.take(j as int), i64::MIN as int, i64::MAX as int) == Some(total as int),
                decreases bundle.len() - j,
            {
                let arc = bundle[j];
                assert(bundle@[j as int] < m);
                let f = config[arc] as i64;
                proof {
                    assert(fl.take(j as int + 1) =~= fl.take(j as int).push(fl[j as int]));
                    lemma_fold_push(fl.take(j as int), fl[j as int], i64::MIN as int, i64::MAX as int);
                }
                match total.checked_add(f) {
                    None => {
                        proof { lemma_fold_none_extends(fl, j as int + 1); }
                        return Ok(Or(false));
                    },
                    Some(t) => { total = t; },
                }
                j += 1;
            }
            assert(fl.take(fl.len() as int) =~= fl);
            if total > self.bundle_capacities[i] {
                return Ok(Or(false));
            }
            i += 1;
        }
        let n = self.graph.num_vertices();
        let mut vtx: usize = 0;
        while vtx < n
            invariant
                vtx <= n,
                conservation(g.arc_seq(), config@, self.source as int, self.sink as int, vtx as int) == Ok::<bool, EvaluationError>(true),
            decreases n - vtx,
        {
            if vtx != self.source && vtx != self.sink {
                match self.vertex_balance(config.as_slice(), vtx) {
                    Err(e) => {
                        proof { lemma_conservation_stop(g.arc_seq(), config@, self.source as int, self.sink as int, vtx as int + 1, n as int); }
                        return Err(e);
                    },
                    Ok(b) => {
                        if b != 0 {
                            proof { lemma_conservation_stop(g.arc_seq(), config@, self.source as int, self.sink as int, vtx as int + 1, n as int); }
                            return Ok(Or(false));
                        }
                    },
                }
            }
            vtx += 1;
        }
        match self.vertex_balance(config.as_slice(), self.sink) {
            Err(e) => Err(e),
            Ok(b) => Ok(Or(b >= self.requirement)),
        }
    }

    /// Every bundle entry is an arc.
    proof fn lemma_entries_in_range(&self)
        requires
            self.wf(),
        ensures
            forall|i: int, j: int| 0 <= i < self.bundles@.len() && 0 <= j < self.bundles@[i]@.len()
                ==> #[trigger] self.bundles@[i]@[j] < self.spec_graph().arc_seq().len(),
    {
        let bv = self.spec_bundles();
        let m = self.spec_graph().arc_seq().len();
        let bis = Seq::new(bv.len(), |i: int| bundle_issue(bv, self.bundle_capacities@, m, i));
        assert forall|i: int| 0 <= i < bv.len() implies (#[trigger] bundle_issue(bv, self.bundle_capacities@, m, i)) is None by {
            lemma_no_issue_all(bis, i);
        }
        lemma_entries_ok(bv, self.bundle_capacities@, m);
        assert forall|i: int, j: int| 0 <= i < self.bundles@.len() && 0 <= j < self.bundles@[i]@.len()
            implies #[trigger] self.bundles@[i]@[j] < m by {
            assert(bv[i] == self.bundles@[i]@);
        }
    }
}

/// Bundles without issues have positive capacities and entries that are arcs.
proof fn lemma_entries_ok(bv: Seq<Seq<usize>>, caps: Seq<i64>, m: nat)
    requires
        forall|i: int| 0 <= i < bv.len() ==> (#[trigger] bundle_issue(bv, caps, m, i)) is None,
    ensures
        forall|i: int| 0 <= i < bv.len() ==> #[trigger] caps[i] > 0,
        forall|i: int, j: int| 0 <= i < bv.len() && 0 <= j < bv[i].len() ==> #[trigger] bv[i][j] < m,
{
    assert forall|i: int, j: int| 0 <= i < bv.len() && 0 <= j < bv[i].len() implies #[trigger] bv[i][j] < m by {
        assert(bundle_issue(bv, caps, m, i) is None);
        let eis = Seq::new(bv[i].len(), |x: int| entry_issue(bv[i], m, x));
        lemma_no_issue_all(eis, j);
    }
    assert forall|i: int| 0 <= i < bv.len() implies #[trigger] caps[i] > 0 by {
        assert(bundle_issue(bv, caps, m, i) is None);
    }
}

/// No first issue means no issue at all.
proof fn lemma_no_issue_all(issues: Seq<Option<ConstructionError>>, i: int)
    requires
        first_issue(issues) is None,
        0 <= i < issues.len(),
    ensures
        issues[i] is None,
    decreases issues.len(),
{
    if i > 0 {
        assert(issues.drop_first()[i - 1] == issues[i]);
        lemma_no_issue_all(issues.drop_first(), i - 1);
    }
}

proof fn lemma_bound_positive(bundles: Seq<Seq<usize>>, caps: Seq<i64>, a: int, k: int)
    requires
        0 <= k <= bundles.len(),
    ensures
        arc_bound(bundles, caps, a, k) <= i64::MAX,
        (forall|i: int| 0 <= i < k ==> #[trigger] caps[i] > 0) ==> arc_bound(bundles, caps, a, k) > 0,
    decreases k,
{
    if k > 0 {
        lemma_bound_positive(bundles, caps, a, k - 1);
    }
}

proof fn lemma_bound_at_most_max(bundles: Seq<Seq<usize>>, caps: Seq<i64>, a: int, k: int)
    requires
        0 <= k <= bundles.len(),
    ensures
        arc_bound(bundles, caps, a, k) <= i64::MAX,
    decreases k,
{
    if k > 0 {
        lemma_bound_at_most_max(bundles, caps, a, k - 1);
    }
}

proof fn lemma_balance_none(arcs: Seq<(usize, usize)>, flow: Seq<usize>, vertex: int, a: int, b: int)
    requires
        0 <= a <= b,
        vertex_balance_spec(arcs, flow, vertex, a) is None,
    ensures
        vertex_balance_spec(arcs, flow, vertex, b) is None,
    decreases b - a,
{
    if a < b {
        lemma_balance_none(arcs, flow, vertex, a, b - 1);
    }
}

/// A checked fold that fails on a prefix fails on the whole sequence.
proof fn lemma_fold_none_extends(t: Seq<int>, k: int)
    requires
        0 <= k <= t.len(),
        checked_fold(t.take(k), i64::MIN as int, i64::MAX as int) is None,
    ensures
        checked_fold(t, i64::MIN as int, i64::MAX as int) is None,
    decreases t.len() - k,
{
    if k < t.len() {
        assert(t.take(k + 1) =~= t.take(k).push(t[k]));
        lemma_fold_push(t.take(k), t[k], i64::MIN as int, i64::MAX as int);
        lemma_fold_none_extends(t, k + 1);
    } else {
        assert(t.take(k) =~= t);
    }
}

} // verus!
