//! Maximum Common Edge Subgraph: map the vertices of one arc-labelled
//! digraph partially and injectively into another so that as many arcs as
//! possible are preserved with their labels.
use vstd::prelude::*;
use crate::types::{EvaluationError, Max};

verus! {

/// An arc with a label.
#[derive(Debug, Clone, Copy, PartialEq, Eq, Structural, Hash)]
pub struct LabelledArc {
    /// Tail.
    pub src: usize,
    /// Label.
    pub label: usize,
    /// Head.
    pub dst: usize,
}

impl LabelledArc {
    /// An arc from `src` to `dst` with `label`.
    pub fn new(src: usize, label: usize, dst: usize) -> (r: Self)
        ensures
            r == (LabelledArc { src, label, dst }),
    {
        LabelledArc { src, label, dst }
    }
}

/// The first `k` arcs with repeats left out, in order of first appearance.
pub open spec fn dedup_arcs(arcs: Seq<LabelledArc>, k: int) -> Seq<LabelledArc>
    decreases k,
{
    if k <= 0 {
        Seq::empty()
    } else {
        let prev = dedup_arcs(arcs, k - 1);
        if prev.contains(arcs[k - 1]) { prev } else { prev.push(arcs[k - 1]) }
    }
}

/// Every arc joins vertices below `n`.
pub open spec fn arcs_below(arcs: Seq<LabelledArc>, n: nat) -> bool {
    forall|i: int| 0 <= i < arcs.len() ==> (#[trigger] arcs[i]).src < n && arcs[i].dst < n
}

/// A directed graph whose arcs carry labels; the arcs are distinct.
#[derive(Debug, Clone)]
pub struct LabelledDigraph {
    /// Number of vertices.
    pub num_vertices: usize,
    /// The arcs, each once.
    pub arcs: Vec<LabelledArc>,
}

impl LabelledDigraph {
    /// The graph with the given arcs, repeats left out; panics on an endpoint out of range.
    pub fn new(num_vertices: usize, arcs: Vec<LabelledArc>) -> (r: Self)
        requires
            arcs_below(arcs@, num_vertices as nat),
        ensures
            r.num_vertices == num_vertices,
            r.arcs@ == dedup_arcs(arcs@, arcs@.len() as int),
            arcs_below(r.arcs@, num_vertices as nat),
    {
        let mut out: Vec<LabelledArc> = Vec::new();
        let mut i: usize = 0;
        while i < arcs.len()
            invariant
                i <= arcs@.len(),
                arcs_below(arcs@, num_vertices as nat),
                out@ == dedup_arcs(arcs@, i as int),
                arcs_below(out@, num_vertices as nat),
            decreases arcs.len() - i,
        {
            let a = arcs[i];
            let mut found = false;
            let mut j: usize = 0;
            while j < out.len()
                invariant
                    j <= out@.len(),
                    found == exists|x: int| 0 <= x < j && out@[x] == a,
                decreases out.len() - j,
            {
                if out[j] == a {
                    found = true;
                }
                j += 1;
            }
            if !found {
                out.push(a);
            }
            i += 1;
        }
        LabelledDigraph { num_vertices, arcs: out }
    }

    /// Number of vertices.
    pub fn num_vertices(&self) -> (r: usize)
        ensures
            r == self.num_vertices,
    {
        self.num_vertices
    }

    /// Number of arcs.
    pub fn num_arcs(&self) -> (r: usize)
        ensures
            r == self.arcs@.len(),
    {
        self.arcs.len()
    }

    /// The arcs.
    pub fn arcs(&self) -> (r: &[LabelledArc])
        ensures
            r@ == self.arcs@,
    {
        self.arcs.as_slice()
    }
}

/// `config` maps each vertex of the first graph to a vertex of the second
/// or to the bottom value `n2`, never two vertices to the same one.
pub open spec fn valid_mapping(config: Seq<usize>, n1: nat, n2: nat) -> bool {
    &&& config.len() == n1
    &&& forall|i: int| 0 <= i < config.len() ==> #[trigger] config[i] <= n2
    &&& forall|i: int, j: int| 0 <= i < j < config.len() && config[i] != n2 ==> #[trigger] config[i] != #[trigger] config[j]
}

/// Arc `a` of the first graph is mapped onto an arc of the second with the same label.
pub open spec fn preserved(arcs2: Seq<LabelledArc>, config: Seq<usize>, n2: nat, a: LabelledArc) -> bool {
    let fu = config[a.src as int];
    let fv = config[a.dst as int];
    fu != n2 && fv != n2 && arcs2.contains(LabelledArc { src: fu, label: a.label, dst: fv })
}

/// Number of the first `k` arcs of the first graph that are preserved.
pub open spec fn preserved_count(arcs1: Seq<LabelledArc>, arcs2: Seq<LabelledArc>, config: Seq<usize>, n2: nat, k: int) -> nat
    decreases k,
{
    if k <= 0 {
        0
    } else {
        preserved_count(arcs1, arcs2, config, n2, k - 1) + if preserved(arcs2, config, n2, arcs1[k - 1]) { 1nat } else { 0nat }
    }
}

proof fn lemma_count_bound(arcs1: Seq<LabelledArc>, arcs2: Seq<LabelledArc>, config: Seq<usize>, n2: nat, k: int)
    requires
        k >= 0,
    ensures
        preserved_count(arcs1, arcs2, config, n2, k) <= k,
    decreases k,
{
    if k > 0 {
        lemma_count_bound(arcs1, arcs2, config, n2, k - 1);
    }
}

/// Given two arc-labelled digraphs, find a partial injective map of the
/// vertices of the first into the second preserving as many labelled arcs as possible.
#[derive(Debug, Clone)]
pub struct MaximumCommonEdgeSubgraph {
    graph_1: LabelledDigraph,
    graph_2: LabelledDigraph,
}

impl MaximumCommonEdgeSubgraph {
    /// The first graph.
    pub closed spec fn spec_graph_1(&self) -> LabelledDigraph {
        self.graph_1
    }

    /// The second graph.
    pub closed spec fn spec_graph_2(&self) -> LabelledDigraph {
        self.graph_2
    }

    /// Both graphs have their arcs within range.
    pub open spec fn wf(&self) -> bool {
        arcs_below(self.spec_graph_1().arcs@, self.spec_graph_1().num_vertices as nat)
    }

    /// An instance on the two graphs.
    pub fn new(graph_1: LabelledDigraph, graph_2: LabelledDigraph) -> (r: Self)
        ensures
            r.spec_graph_1() == graph_1,
            r.spec_graph_2() == graph_2,
    {
        MaximumCommonEdgeSubgraph { graph_1, graph_2 }
    }

    /// The first graph.
    pub fn graph_1(&self) -> (r: &LabelledDigraph)
        ensures
            *r == self.spec_graph_1(),
    {
        &self.graph_1
    }

    /// The second graph.
    pub fn graph_2(&self) -> (r: &LabelledDigraph)
        ensures
            *r == self.spec_graph_2(),
    {
        &self.graph_2
    }

    /// Vertices of the first graph.
    pub fn num_vertices_1(&self) -> (r: usize)
        ensures
            r == self.spec_graph_1().num_vertices,
    {
        self.graph_1.num_vertices()
    }

    /// Vertices of the second graph.
    pub fn num_vertices_2(&self) -> (r: usize)
        ensures
            r == self.spec_graph_2().num_vertices,
    {
        self.graph_2.num_vertices()
    }

    /// Arcs of the first graph.
    pub fn num_arcs_1(&self) -> (r: usize)
        ensures
            r == self.spec_graph_1().arcs@.len(),
    {
        self.graph_1.num_arcs()
    }

    /// Arcs of the second graph.
    pub fn num_arcs_2(&self) -> (r: usize)
        ensures
            r == self.spec_graph_2().arcs@.len(),
    {
        self.graph_2.num_arcs()
    }

    /// The value that stands for "not mapped": the vertex count of the second graph.
    pub fn bottom_index(&self) -> (r: usize)
        ensures
            r == self.spec_graph_2().num_vertices,
    {
        self.graph_2.num_vertices()
    }

    /// Whether `config` is a partial injective map into the second graph.
    #[verifier::loop_isolation(false)]
    pub fn is_valid_solution(&self, config: &[usize]) -> (r: bool)
        ensures
            r == valid_mapping(config@, self.spec_graph_1().num_vertices as nat, self.spec_graph_2().num_vertices as nat),
    {
        let n1 = self.graph_1.num_vertices();
        let n2 = self.graph_2.num_vertices();
        if config.len() != n1 {
            return false;
        }
        let mut used: Vec<bool> = Vec::new();
        let mut x: usize = 0;
        while x < n2
            invariant
                x <= n2,
                used@.len() == x,
                forall|y: int| 0 <= y < x ==> !#[trigger] used@[y],
            decreases n2 - x,
        {
            used.push(false);
            x += 1;
        }
        let mut i: usize = 0;
        while i < config.len()
            invariant
                config@.len() == n1,
                used@.len() == n2,
                i <= config@.len(),
                forall|j: int| 0 <= j < i ==> #[trigger] config@[j] <= n2,
                forall|a: int, b: int| 0 <= a < b < i && config@[a] != n2 ==> #[trigger] config@[a] != #[trigger] config@[b],
                forall|y: int| 0 <= y < n2 ==> (#[trigger] used@[y] <==> exists|j: int| 0 <= j < i && config@[j] == y),
            decreases config.len() - i,
        {
            let value = config[i];
            if value > n2 {
                assert(!valid_mapping(config@, n1 as nat, n2 as nat)) by {
                    assert(config@[i as int] > n2);
                }
                return false;
            }
            if value != n2 {
                if used[value] {
                    proof {
                        let j = choose|j: int| 0 <= j < i && config@[j] == value;
                        assert(config@[j] == config@[i as int]);
                    }
                    return false;
                }
                used.set(value, true);
            }
            proof {
                assert forall|y: int| 0 <= y < n2 implies (#[trigger] used@[y] <==> exists|j: int| 0 <= j < i + 1 && config@[j] == y) by {
                    if exists|j: int| 0 <= j < i + 1 && config@[j] == y {
                        let j = choose|j: int| 0 <= j < i + 1 && config@[j] == y;
                        if j < i {
                            assert(exists|j: int| 0 <= j < i && config@[j] == y);
                        }
                    }
                }
                assert forall|a: int, b: int| 0 <= a < b < i + 1 && config@[a] != n2 implies #[trigger] config@[a] != #[trigger] config@[b] by {
                    if b == i && config@[a] == config@[b] {
                        assert(used@[config@[a] as int]);
                    }
                }
            }
            i += 1;
        }
        true
    }

    /// The number of arcs of the first graph preserved by `config`, or `None`
    /// when `config` is not a valid map; an error when the count passes `i64`.
    pub fn preserved_arc_count(&self, config: &[usize]) -> (r: Result<Option<i64>, EvaluationError>)
        requires
            self.wf(),
        ensures
            !valid_mapping(config@, self.spec_graph_1().num_vertices as nat, self.spec_graph_2().num_vertices as nat)
                ==> r == Ok::<Option<i64>, EvaluationError>(None),
            valid_mapping(config@, self.spec_graph_1().num_vertices as nat, self.spec_graph_2().num_vertices as nat) ==> {
                let c = preserved_count(self.spec_graph_1().arcs@, self.spec_graph_2().arcs@, config@,
                    self.spec_graph_2().num_vertices as nat, self.spec_graph_1().arcs@.len() as int);
                if c <= i64::MAX { r == Ok::<Option<i64>, EvaluationError>(Some(c as i64)) } else { r == Err::<Option<i64>, EvaluationError>(EvaluationError::IntegerOverflow) }
            },
    {
        if !self.is_valid_solution(config) {
            return Ok(None);
        }
        let bottom = self.graph_2.num_vertices();
        let arcs1 = &self.graph_1.arcs;
        let arcs2 = &self.graph_2.arcs;
        let mut count: usize = 0;
        let mut k: usize = 0;
        while k < arcs1.len()
            invariant
                arcs_below(arcs1@, config@.len()),
                bottom == self.spec_graph_2().num_vertices,
                *arcs1 == self.spec_graph_1().arcs,
                *arcs2 == self.spec_graph_2().arcs,
                k <= arcs1@.len(),
                count == preserved_count(arcs1@, arcs2@, config@, bottom as nat, k as int),
            decreases arcs1.len() - k,
        {
            proof { lemma_count_bound(arcs1@, arcs2@, config@, bottom as nat, k as int); }
            let a = arcs1[k];
            assert(arcs1@[k as int] == a);
            let fu = config[a.src];
            let fv = config[a.dst];
            if fu != bottom && fv != bottom {
                let target = LabelledArc { src: fu, label: a.label, dst: fv };
                let mut found = false;
                let mut j: usize = 0;
                while j < arcs2.len()
                    invariant
                        j <= arcs2@.len(),
                        found == exists|x: int| 0 <= x < j && arcs2@[x] == target,
                    decreases arcs2.len() - j,
                {
                    if arcs2[j] == target {
                        found = true;
                    }
                    j += 1;
                }
                if found {
                    count += 1;
                }
            }
            k += 1;
        }
        if (count as u64) > 9223372036854775807u64 {
            return Err(EvaluationError::IntegerOverflow);
        }
        Ok(Some(count as i64))
    }

    /// The number of preserved arcs (`None` for an invalid map); an error
    /// when `config` has the wrong length or a value past the bottom value.
    pub fn evaluate(&self, config: &Vec<usize>) -> (r: Result<Max<i64>, EvaluationError>)
        requires
            self.wf(),
        ensures
            (config@.len() != self.spec_graph_1().num_vertices
                || exists|i: int| 0 <= i < config@.len() && #[trigger] config@[i] > self.spec_graph_2().num_vertices)
                ==> r == Err::<Max<i64>, EvaluationError>(EvaluationError::InvalidConfiguration),
            !(config@.len() != self.spec_graph_1().num_vertices
                || exists|i: int| 0 <= i < config@.len() && #[trigger] config@[i] > self.spec_graph_2().num_vertices) ==> {
                let c = preserved_count(self.spec_graph_1().arcs@, self.spec_graph_2().arcs@, config@,
                    self.spec_graph_2().num_vertices as nat, self.spec_graph_1().arcs@.len() as int);
                if !valid_mapping(config@, self.spec_graph_1().num_vertices as nat, self.spec_graph_2().num_vertices as nat) {
                    r == Ok::<Max<i64>, EvaluationError>(Max(None))
                } else if c <= i64::MAX {
                    r == Ok::<Max<i64>, EvaluationError>(Max(Some(c as i64)))
                } else {
                    r == Err::<Max<i64>, EvaluationError>(EvaluationError::IntegerOverflow)
                }
            },
    {
        if config.len() != self.graph_1.num_vertices() {
            return Err(EvaluationError::InvalidConfiguration);
        }
        let n2 = self.graph_2.num_vertices();
        let mut i: usize = 0;
        while i < config.len()
            invariant
                i <= config@.len(),
                n2 == self.spec_graph_2().num_vertices,
                forall|j: int| 0 <= j < i ==> #[trigger] config@[j] <= n2,
            decreases config.len() - i,
        {
            if config[i] > n2 {
                assert(config@[i as int] > n2);
                return Err(EvaluationError::InvalidConfiguration);
            }
            i += 1;
        }
        match self.preserved_arc_count(config.as_slice()) {
            Err(e) => Err(e),
            Ok(Some(c)) => Ok(Max(Some(c))),
            Ok(None) => Ok(Max(None)),
        }
    }

    /// Each vertex of the first graph takes a vertex of the second or the bottom value.
    pub fn dimensions(&self) -> (r: Vec<usize>)
        requires
            self.spec_graph_2().num_vertices < usize::MAX,
        ensures
            r@.len() == self.spec_graph_1().num_vertices,
            forall|i: int| 0 <= i < r@.len() ==> #[trigger] r@[i] == self.spec_graph_2().num_vertices + 1,
    {
        crate::models::graph::uniform_dims(self.graph_1.num_vertices(), self.graph_2.num_vertices() + 1)
    }
}

/// An arc of the first graph counts exactly when both its endpoints are
/// mapped and the second graph has an arc between their images carrying
/// the same label.
pub proof fn law_preserved_arc_needs_same_label(arcs1: Seq<LabelledArc>, arcs2: Seq<LabelledArc>, config: Seq<usize>,
    n2: nat, k: int)
    requires
        1 <= k <= arcs1.len(),
    ensures
        preserved_count(arcs1, arcs2, config, n2, k) == preserved_count(arcs1, arcs2, config, n2, k - 1) + 1 <==> {
            let a = arcs1[k - 1];
            let fu = config[a.src as int];
            let fv = config[a.dst as int];
            fu != n2 && fv != n2 && exists|x: int|
                0 <= x < arcs2.len() && (#[trigger] arcs2[x]).src == fu && arcs2[x].label == a.label && arcs2[x].dst == fv
        },
        preserved_count(arcs1, arcs2, config, n2, k) == preserved_count(arcs1, arcs2, config, n2, k - 1)
            || preserved_count(arcs1, arcs2, config, n2, k) == preserved_count(arcs1, arcs2, config, n2, k - 1) + 1,
{
    let a = arcs1[k - 1];
    let fu = config[a.src as int];
    let fv = config[a.dst as int];
    let target = LabelledArc { src: fu, label: a.label, dst: fv };
    if arcs2.contains(target) {
        let x = choose|x: int| 0 <= x < arcs2.len() && arcs2[x] == target;
        assert(arcs2[x].src == fu && arcs2[x].label == a.label && arcs2[x].dst == fv);
    }
    if exists|x: int| 0 <= x < arcs2.len() && (#[trigger] arcs2[x]).src == fu && arcs2[x].label == a.label
        && arcs2[x].dst == fv {
        let x = choose|x: int| 0 <= x < arcs2.len() && (#[trigger] arcs2[x]).src == fu && arcs2[x].label == a.label
            && arcs2[x].dst == fv;
        assert(arcs2[x] == target);
        assert(arcs2.contains(target));
    }
}

/// Labels must match: when no arc of the second graph carries the label of
/// any of the first `k` arcs of the first graph, none of them is preserved,
/// whatever the mapping.
pub proof fn law_no_shared_label_preserves_nothing(arcs1: Seq<LabelledArc>, arcs2: Seq<LabelledArc>, config: Seq<usize>,
    n2: nat, k: int)
    requires
        0 <= k <= arcs1.len(),
        forall|i: int, x: int| 0 <= i < k && 0 <= x < arcs2.len() ==> #[trigger] arcs1[i].label != #[trigger] arcs2[x].label,
    ensures
        preserved_count(arcs1, arcs2, config, n2, k) == 0,
    decreases k,
{
    if k > 0 {
        law_no_shared_label_preserves_nothing(arcs1, arcs2, config, n2, k - 1);
        law_preserved_arc_needs_same_label(arcs1, arcs2, config, n2, k);
        let a = arcs1[k - 1];
        assert forall|x: int| 0 <= x < arcs2.len() implies (#[trigger] arcs2[x]).label != a.label by {
            assert(arcs1[k - 1].label != arcs2[x].label);
        }
    }
}

} // verus!
