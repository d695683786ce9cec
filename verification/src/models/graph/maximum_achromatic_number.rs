//! Maximum Achromatic Number: a proper colouring in which every two colours
//! meet on some edge, with as many colours as possible.
use vstd::prelude::*;
use crate::topology::SimpleGraph;
use crate::types::Max;

verus! {

/// No edge has both endpoints of one colour.
pub open spec fn proper(edges: Seq<(usize, usize)>, config: Seq<usize>) -> bool {
    forall|k: int| 0 <= k < edges.len() ==> config[(#[trigger] edges[k]).0 as int] != config[edges[k].1 as int]
}

/// Some edge joins a vertex of colour `c1` and one of colour `c2`.
pub open spec fn colours_meet(edges: Seq<(usize, usize)>, config: Seq<usize>, c1: usize, c2: usize) -> bool {
    exists|k: int| 0 <= k < edges.len() && ((config[(#[trigger] edges[k]).0 as int] == c1 && config[edges[k].1 as int] == c2)
        || (config[edges[k].0 as int] == c2 && config[edges[k].1 as int] == c1))
}

/// Every two different colours in use meet on some edge.
pub open spec fn complete(edges: Seq<(usize, usize)>, config: Seq<usize>) -> bool {
    forall|c1: usize, c2: usize| config.contains(c1) && config.contains(c2) && c1 != c2
        ==> #[trigger] colours_meet(edges, config, c1, c2)
}

/// The colours of `config`, each once, in order of first use.
fn distinct_colours(config: &[usize]) -> (r: Vec<usize>)
    ensures
        r@.no_duplicates(),
        forall|c: usize| #[trigger] r@.contains(c) <==> config@.contains(c),
        r@.to_set() == config@.to_set(),
{
    let mut out: Vec<usize> = Vec::new();
    let mut i: usize = 0;
    while i < config.len()
        invariant
            i <= config@.len(),
            out@.no_duplicates(),
            forall|c: usize| #[trigger] out@.contains(c) <==> config@.take(i as int).contains(c),
        decreases config.len() - i,
    {
        let c = config[i];
        let mut found = false;
        let mut j: usize = 0;
        while j < out.len()
            invariant
                j <= out@.len(),
                found == exists|x: int| 0 <= x < j && out@[x] == c,
            decreases out.len() - j,
        {
            if out[j] == c {
                found = true;
            }
            j += 1;
        }
        let ghost before = out@;
        if !found {
            out.push(c);
            proof {
                assert forall|x: int, y: int| 0 <= x < out@.len() && 0 <= y < out@.len() && x != y implies out@[x] != out@[y] by {
                    if x == before.len() as int {
                        assert(before.contains(before[y]));
                    } else if y == before.len() as int {
                        assert(before.contains(before[x]));
                    }
                }
            }
        }
        proof {
            assert(config@.take(i as int + 1) =~= config@.take(i as int).push(c));
            assert forall|d: usize| #[trigger] out@.contains(d) <==> config@.take(i as int + 1).contains(d) by {
                vstd::seq_lib::lemma_seq_contains_after_push(config@.take(i as int), c, d);
                if !found {
                    vstd::seq_lib::lemma_seq_contains_after_push(before, c, d);
                } else {
                    if d == c {
                        let x = choose|x: int| 0 <= x < before.len() && before[x] == c;
                        assert(before.contains(c));
                    }
                }
            }
        }
        i += 1;
    }
    assert(config@.take(config@.len() as int) =~= config@);
    assert(out@.to_set() =~= config@.to_set()) by {
        assert forall|c: usize| out@.to_set().contains(c) <==> config@.to_set().contains(c) by {
            assert(out@.contains(c) <==> config@.contains(c));
        }
    }
    out
}

/// Given a graph, find a complete proper colouring with the most colours.
#[derive(Debug, Clone)]
pub struct MaximumAchromaticNumber {
    graph: SimpleGraph,
}

impl MaximumAchromaticNumber {
    /// The graph.
    pub closed spec fn spec_graph(&self) -> SimpleGraph {
        self.graph
    }

    /// An instance on the graph.
    pub fn new(graph: SimpleGraph) -> (r: Self)
        ensures
            r.spec_graph() == graph,
    {
        MaximumAchromaticNumber { graph }
    }

    /// The graph.
    pub fn graph(&self) -> (r: &SimpleGraph)
        ensures
            *r == self.spec_graph(),
    {
        &self.graph
    }

    /// Number of vertices.
    pub fn num_vertices(&self) -> (r: usize)
        ensures
            r == self.spec_graph().n(),
    {
        self.graph.num_vertices()
    }

    /// Number of edges.
    pub fn num_edges(&self) -> (r: usize)
        ensures
            r == self.spec_graph().edge_seq().len(),
    {
        self.graph.num_edges()
    }

    /// Whether no edge has both endpoints of one colour; panics unless every
    /// vertex has a colour, outside the `requires`.
    pub fn is_proper_coloring(&self, config: &[usize]) -> (r: bool)
        requires
            self.spec_graph().wf(),
            config@.len() >= self.spec_graph().n(),
        ensures
            r == proper(self.spec_graph().edge_seq(), config@),
    {
        let edges = self.graph.edge_list();
        let mut k: usize = 0;
        while k < edges.len()
            invariant
                self.spec_graph().wf(),
                edges@ == self.spec_graph().edge_seq(),
                config@.len() >= self.spec_graph().n(),
                k <= edges@.len(),
                forall|j: int| 0 <= j < k ==> config@[(#[trigger] edges@[j]).0 as int] != config@[edges@[j].1 as int],
            decreases edges.len() - k,
        {
            let (u, v) = edges[k];
            assert(edges@[k as int] == (u, v));
            if config[u] == config[v] {
                return false;
            }
            k += 1;
        }
        true
    }

    /// Whether every two different colours in use meet on some edge; panics
    /// unless every vertex has a colour, outside the `requires`.
    #[verifier::loop_isolation(false)]
    pub fn is_complete_coloring(&self, config: &[usize]) -> (r: bool)
        requires
            self.spec_graph().wf(),
            config@.len() >= self.spec_graph().n(),
        ensures
            r == complete(self.spec_graph().edge_seq(), config@),
    {
        let colors = distinct_colours(config);
        let edges = self.graph.edge_list();
        let ghost es = self.spec_graph().edge_seq();
        let mut i: usize = 0;
        while i < colors.len()
            invariant
                self.spec_graph().wf(),
                edges@ == es,
                es == self.spec_graph().edge_seq(),
                config@.len() >= self.spec_graph().n(),
                colors@.no_duplicates(),
                forall|c: usize| #[trigger] colors@.contains(c) <==> config@.contains(c),
                i <= colors@.len(),
                forall|a: int, b: int| 0 <= a < i && a < b < colors@.len() ==> #[trigger] colours_meet(es, config@, colors@[a], colors@[b]),
            decreases colors.len() - i,
        {
            let mut j: usize = i + 1;
            while j < colors.len()
                invariant
                    self.spec_graph().wf(),
                    edges@ == es,
                    config@.len() >= self.spec_graph().n(),
                    i < colors@.len(),
                    i + 1 <= j <= colors@.len(),
                    forall|a: int, b: int| 0 <= a < i && a < b < colors@.len() ==> #[trigger] colours_meet(es, config@, colors@[a], colors@[b]),
                    forall|b: int| i < b < j ==> #[trigger] colours_meet(es, config@, colors@[i as int], colors@[b]),
                decreases colors.len() - j,
            {
                let c1 = colors[i];
                let c2 = colors[j];
                let mut has_edge = false;
                let mut k: usize = 0;
                while k < edges.len() && !has_edge
                    invariant
                        self.spec_graph().wf(),
                        edges@ == es,
                        config@.len() >= self.spec_graph().n(),
                        k <= edges@.len(),
                        has_edge ==> colours_meet(es, config@, c1, c2),
                        !has_edge ==> forall|x: int| 0 <= x < k ==> !((config@[(#[trigger] es[x]).0 as int] == c1 && config@[es[x].1 as int] == c2)
                            || (config@[es[x].0 as int] == c2 && config@[es[x].1 as int] == c1)),
                    decreases edges.len() - k,
                {
                    let (u, v) = edges[k];
                    assert(es[k as int] == (u, v));
                    assert(u < self.spec_graph().n() && v < self.spec_graph().n());
                    if (config[u] == c1 && config[v] == c2) || (config[u] == c2 && config[v] == c1) {
                        has_edge = true;
                    }
                    k += 1;
                }
                if !has_edge {
                    proof {
                        assert(colors@.contains(c1) && colors@.contains(c2));
                        assert(colors@[i as int] != colors@[j as int]);
                        assert(!colours_meet(es, config@, c1, c2));
                    }
                    return false;
                }
                j += 1;
            }
            i += 1;
        }
        proof {
            assert forall|c1: usize, c2: usize| config@.contains(c1) && config@.contains(c2) && c1 != c2
                implies #[trigger] colours_meet(es, config@, c1, c2) by {
                assert(colors@.contains(c1) && colors@.contains(c2));
                let a = choose|a: int| 0 <= a < colors@.len() && colors@[a] == c1;
                let b = choose|b: int| 0 <= b < colors@.len() && colors@[b] == c2;
                if a < b {
                    assert(colours_meet(es, config@, colors@[a], colors@[b]));
                } else {
                    assert(colours_meet(es, config@, colors@[b], colors@[a]));
                }
            }
        }
        true
    }

    /// Each vertex takes one of as many colours as there are vertices.
    pub fn dims(&self) -> (r: Vec<usize>)
        ensures
            r@.len() == self.spec_graph().n(),
            forall|i: int| 0 <= i < r@.len() ==> #[trigger] r@[i] == self.spec_graph().n(),
    {
        let n = self.graph.num_vertices();
        crate::models::graph::uniform_dims(n, n)
    }

    /// The number of colours of a complete proper colouring (`Some(0)`
    /// without vertices), `None` for any other configuration.
    pub fn evaluate(&self, config: &[usize]) -> (r: Max<usize>)
        requires
            self.spec_graph().wf(),
        ensures
            r == (if config@.len() != self.spec_graph().n() {
                Max(None)
            } else if self.spec_graph().n() == 0 {
                Max(Some(0usize))
            } else if !proper(self.spec_graph().edge_seq(), config@) || !complete(self.spec_graph().edge_seq(), config@) {
                Max(None)
            } else {
                Max(Some(config@.to_set().len() as usize))
            }),
    {
        if config.len() != self.graph.num_vertices() {
            return Max(None);
        }
        if self.graph.num_vertices() == 0 {
            return Max(Some(0));
        }
        if !self.is_proper_coloring(config) {
            return Max(None);
        }
        if !self.is_complete_coloring(config) {
            return Max(None);
        }
        let distinct = distinct_colours(config);
        proof { distinct@.unique_seq_to_set(); }
        Max(Some(distinct.len()))
    }
}

} // verus!
