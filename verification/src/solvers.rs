//! Exhaustive search over all configurations.
use vstd::prelude::*;
use crate::models::graph::clique::{Clique, is_clique_spec, clique_weight};
use crate::models::graph::coloring::{Coloring, proper_coloring, count_conflicts};
use crate::models::graph::dominating_set::{DominatingSet, dominates};
use crate::models::graph::independent_set::IndependentSet;
use crate::models::graph::matching::{Matching, is_matching_spec, matching_weight};
use crate::models::graph::props::edges_independent;
use crate::models::graph::vertex_weights::{ones, selected_weight};
use crate::topology::copy_vec;

verus! {

/// A problem whose configurations assign each of `spec_vars` variables one
/// of `spec_flavors` values, some of them feasible with an objective.
pub trait SearchProblem {
    /// The instance is well formed.
    spec fn spec_ready(&self) -> bool;

    /// Number of variables.
    spec fn spec_vars(&self) -> nat;

    /// Number of values of each variable.
    spec fn spec_flavors(&self) -> nat;

    /// Larger objectives are better (else smaller ones).
    spec fn spec_maximizes(&self) -> bool;

    /// The objective of a feasible configuration, `None` for an infeasible one.
    spec fn spec_value(&self, c: Seq<usize>) -> Option<int>;

    /// The objective of the configuration, if feasible, fits in `i32`.
    spec fn spec_measurable(&self, c: Seq<usize>) -> bool;

    /// Number of variables.
    fn search_vars(&self) -> (r: usize)
        requires
            self.spec_ready(),
        ensures
            r == self.spec_vars();

    /// Number of values of each variable.
    fn search_flavors(&self) -> (r: usize)
        requires
            self.spec_ready(),
        ensures
            r == self.spec_flavors();

    /// Whether larger objectives are better.
    fn search_maximizes(&self) -> (r: bool)
        ensures
            r == self.spec_maximizes();

    /// The objective of a feasible configuration, `None` for an infeasible one.
    fn search_value(&self, c: &[usize]) -> (r: Option<i32>)
        requires
            self.spec_ready(),
            c@.len() == self.spec_vars(),
            forall|i: int| 0 <= i < c@.len() ==> #[trigger] c@[i] < self.spec_flavors(),
            self.spec_measurable(c@),
        ensures
            match r {
                Some(x) => self.spec_value(c@) == Some(x as int),
                None => self.spec_value(c@) is None,
            };
}

/// All extensions of `prefix` by `depth` more entries below `d`, in
/// lexicographic order.
pub open spec fn completions(prefix: Seq<usize>, depth: nat, d: nat) -> Seq<Seq<usize>>
    decreases depth, d + 1,
{
    if depth == 0 {
        seq![prefix]
    } else {
        branches(prefix, depth, d, d)
    }
}

/// The extensions of `prefix` by `depth` entries below `d` whose next entry
/// is below `k`, in lexicographic order.
pub open spec fn branches(prefix: Seq<usize>, depth: nat, d: nat, k: nat) -> Seq<Seq<usize>>
    decreases depth, k,
{
    if depth == 0 || k == 0 {
        Seq::empty()
    } else {
        branches(prefix, depth, d, (k - 1) as nat) + completions(prefix.push((k - 1) as usize), (depth - 1) as nat, d)
    }
}

/// The better of two optional objectives.
pub open spec fn opt_best(maximize: bool, a: Option<int>, b: Option<int>) -> Option<int> {
    match (a, b) {
        (Some(x), Some(y)) => Some(if maximize { if x >= y { x } else { y } } else { if x <= y { x } else { y } }),
        (Some(x), None) => Some(x),
        (None, _) => b,
    }
}

/// Best objective among the configurations.
pub open spec fn best_value<P: SearchProblem>(p: P, cs: Seq<Seq<usize>>) -> Option<int>
    decreases cs.len(),
{
    if cs.len() == 0 {
        None
    } else {
        opt_best(p.spec_maximizes(), best_value(p, cs.drop_last()), p.spec_value(cs.last()))
    }
}

/// The configurations whose objective is `b`, in order.
pub open spec fn with_value<P: SearchProblem>(p: P, cs: Seq<Seq<usize>>, b: int) -> Seq<Seq<usize>>
    decreases cs.len(),
{
    if cs.len() == 0 {
        Seq::empty()
    } else {
        let rest = with_value(p, cs.drop_last(), b);
        if p.spec_value(cs.last()) == Some(b) {
            rest.push(cs.last())
        } else {
            rest
        }
    }
}

/// The optimal configurations: all feasible ones of the best objective.
pub open spec fn optimal_configs<P: SearchProblem>(p: P, cs: Seq<Seq<usize>>) -> Seq<Seq<usize>> {
    match best_value(p, cs) {
        Some(b) => with_value(p, cs, b),
        None => Seq::empty(),
    }
}

/// Every configuration of the search space can be measured.
pub open spec fn all_measurable<P: SearchProblem>(p: P, prefix: Seq<usize>, depth: nat) -> bool {
    forall|c: Seq<usize>| #[trigger] completions(prefix, depth, p.spec_flavors()).contains(c) ==> p.spec_measurable(c)
}

proof fn lemma_best_value_concat<P: SearchProblem>(p: P, a: Seq<Seq<usize>>, b: Seq<Seq<usize>>)
    ensures
        best_value(p, a + b) == opt_best(p.spec_maximizes(), best_value(p, a), best_value(p, b)),
    decreases b.len(),
{
    if b.len() == 0 {
        assert(a + b =~= a);
    } else {
        assert((a + b).drop_last() =~= a + b.drop_last());
        assert((a + b).last() == b.last());
        lemma_best_value_concat(p, a, b.drop_last());
    }
}

proof fn lemma_with_value_concat<P: SearchProblem>(p: P, a: Seq<Seq<usize>>, b: Seq<Seq<usize>>, v: int)
    ensures
        with_value(p, a + b, v) == with_value(p, a, v) + with_value(p, b, v),
    decreases b.len(),
{
    if b.len() == 0 {
        assert(a + b =~= a);
        assert(with_value(p, a, v) + with_value(p, b, v) =~= with_value(p, a, v));
    } else {
        assert((a + b).drop_last() =~= a + b.drop_last());
        assert((a + b).last() == b.last());
        lemma_with_value_concat(p, a, b.drop_last(), v);
        if p.spec_value(b.last()) == Some(v) {
            assert(with_value(p, a, v) + with_value(p, b.drop_last(), v).push(b.last())
                =~= (with_value(p, a, v) + with_value(p, b.drop_last(), v)).push(b.last()));
        }
    }
}

/// The extensions through a value `v < k` are among the branches below `k`.
proof fn lemma_branch_contains(prefix: Seq<usize>, depth: nat, d: nat, k: nat, v: nat, c: Seq<usize>)
    requires
        depth > 0,
        v < k,
        completions(prefix.push(v as usize), (depth - 1) as nat, d).contains(c),
    ensures
        branches(prefix, depth, d, k).contains(c),
    decreases k,
{
    let left = branches(prefix, depth, d, (k - 1) as nat);
    let right = completions(prefix.push((k - 1) as usize), (depth - 1) as nat, d);
    assert(branches(prefix, depth, d, k) == left + right);
    if v == k - 1 {
        let i = choose|i: int| 0 <= i < right.len() && right[i] == c;
        assert((left + right)[left.len() + i] == c);
    } else {
        lemma_branch_contains(prefix, depth, d, (k - 1) as nat, v, c);
        let i = choose|i: int| 0 <= i < left.len() && left[i] == c;
        assert((left + right)[i] == c);
    }
}

/// Exhaustive solver.
#[derive(Debug, Clone, Copy)]
pub struct BruteForce {}

impl BruteForce {
    /// Creates a solver.
    pub fn new() -> (r: Self) {
        BruteForce {}
    }

    fn best_rec<P: SearchProblem>(problem: &P, prefix: &mut Vec<usize>, depth: usize, d: usize) -> (r: Option<i32>)
        requires
            problem.spec_ready(),
            d == problem.spec_flavors(),
            old(prefix)@.len() + depth == problem.spec_vars(),
            forall|i: int| 0 <= i < old(prefix)@.len() ==> #[trigger] old(prefix)@[i] < d,
            all_measurable(*problem, old(prefix)@, depth as nat),
        ensures
            final(prefix)@ == old(prefix)@,
            match r {
                Some(x) => best_value(*problem, completions(old(prefix)@, depth as nat, d as nat)) == Some(x as int),
                None => best_value(*problem, completions(old(prefix)@, depth as nat, d as nat)) is None,
            },
        decreases depth, 0int,
    {
        let ghost pre = prefix@;
        if depth == 0 {
            assert(completions(pre, 0, d as nat) == seq![pre]);
            assert(seq![pre].drop_last() =~= Seq::<Seq<usize>>::empty());
            assert(seq![pre].last() == pre);
            assert(best_value(*problem, Seq::<Seq<usize>>::empty()) is None);
            assert(best_value(*problem, seq![pre]) == problem.spec_value(pre));
            assert(seq![pre][0] == pre);
            assert(completions(pre, 0, d as nat).contains(pre));
            return problem.search_value(prefix.as_slice());
        }
        let mut acc: Option<i32> = None;
        let mut v: usize = 0;
        assert(branches(pre, depth as nat, d as nat, 0) =~= Seq::<Seq<usize>>::empty());
        while v < d
            invariant
                problem.spec_ready(),
                d == problem.spec_flavors(),
                depth > 0,
                v <= d,
                prefix@ == pre,
                pre.len() + depth == problem.spec_vars(),
                forall|i: int| 0 <= i < pre.len() ==> #[trigger] pre[i] < d,
                all_measurable(*problem, pre, depth as nat),
                match acc {
                    Some(x) => best_value(*problem, branches(pre, depth as nat, d as nat, v as nat)) == Some(x as int),
                    None => best_value(*problem, branches(pre, depth as nat, d as nat, v as nat)) is None,
                },
            decreases d - v,
        {
            let ghost child = pre.push(v as usize);
            proof {
                assert forall|c: Seq<usize>| #[trigger] completions(child, (depth - 1) as nat, problem.spec_flavors()).contains(c)
                    implies problem.spec_measurable(c) by {
                    lemma_branch_contains(pre, depth as nat, d as nat, d as nat, v as nat, c);
                    assert(completions(pre, depth as nat, d as nat) == branches(pre, depth as nat, d as nat, d as nat));
                }
                lemma_best_value_concat(*problem, branches(pre, depth as nat, d as nat, v as nat),
                    completions(child, (depth - 1) as nat, d as nat));
                assert(branches(pre, depth as nat, d as nat, (v + 1) as nat)
                    == branches(pre, depth as nat, d as nat, v as nat) + completions(child, (depth - 1) as nat, d as nat));
            }
            prefix.push(v);
            assert(prefix@ =~= child);
            let x = Self::best_rec(problem, prefix, depth - 1, d);
            prefix.pop();
            assert(prefix@ =~= pre);
            acc = match (acc, x) {
                (Some(a), Some(b)) => Some(if problem.search_maximizes() { if a >= b { a } else { b } } else { if a <= b { a } else { b } }),
                (Some(a), None) => Some(a),
                (None, _) => x,
            };
            v += 1;
        }
        assert(completions(pre, depth as nat, d as nat) == branches(pre, depth as nat, d as nat, d as nat));
        acc
    }

    fn collect_rec<P: SearchProblem>(problem: &P, prefix: &mut Vec<usize>, depth: usize, d: usize, target: i32,
        out: &mut Vec<Vec<usize>>)
        requires
            problem.spec_ready(),
            d == problem.spec_flavors(),
            old(prefix)@.len() + depth == problem.spec_vars(),
            forall|i: int| 0 <= i < old(prefix)@.len() ==> #[trigger] old(prefix)@[i] < d,
            all_measurable(*problem, old(prefix)@, depth as nat),
        ensures
            final(prefix)@ == old(prefix)@,
            final(out)@.map_values(|v: Vec<usize>| v@) == old(out)@.map_values(|v: Vec<usize>| v@)
                + with_value(*problem, completions(old(prefix)@, depth as nat, d as nat), target as int),
        decreases depth, 0int,
    {
        let ghost pre = prefix@;
        let ghost out0 = out@.map_values(|v: Vec<usize>| v@);
        if depth == 0 {
            assert(completions(pre, 0, d as nat) == seq![pre]);
            assert(seq![pre].drop_last() =~= Seq::<Seq<usize>>::empty());
            assert(seq![pre][0] == pre);
            assert(completions(pre, 0, d as nat).contains(pre));
            assert(with_value(*problem, completions(pre, 0, d as nat), target as int) == if problem.spec_value(pre) == Some(target as int) {
                seq![pre]
            } else {
                Seq::<Seq<usize>>::empty()
            }) by {
                assert(Seq::<Seq<usize>>::empty().push(pre) =~= seq![pre]);
                assert(with_value(*problem, Seq::<Seq<usize>>::empty(), target as int) =~= Seq::<Seq<usize>>::empty());
                assert(seq![pre].last() == pre);
            }
            match problem.search_value(prefix.as_slice()) {
                Some(x) => {
                    if x == target {
                        let c = copy_vec(prefix.as_slice());
                        out.push(c);
                        assert(out@.map_values(|v: Vec<usize>| v@) =~= out0.push(pre));
                        assert(out0.push(pre) =~= out0 + seq![pre]);
                        return;
                    }
                },
                None => {},
            }
            assert(out@.map_values(|v: Vec<usize>| v@) =~= out0 + Seq::<Seq<usize>>::empty());
            return;
        }
        let mut v: usize = 0;
        assert(branches(pre, depth as nat, d as nat, 0) =~= Seq::<Seq<usize>>::empty());
        assert(out0 + Seq::<Seq<usize>>::empty() =~= out0);
        while v < d
            invariant
                problem.spec_ready(),
                d == problem.spec_flavors(),
                depth > 0,
                v <= d,
                prefix@ == pre,
                pre.len() + depth == problem.spec_vars(),
                forall|i: int| 0 <= i < pre.len() ==> #[trigger] pre[i] < d,
                all_measurable(*problem, pre, depth as nat),
                out@.map_values(|v: Vec<usize>| v@) == out0
                    + with_value(*problem, branches(pre, depth as nat, d as nat, v as nat), target as int),
            decreases d - v,
        {
            let ghost child = pre.push(v as usize);
            let ghost before = out@.map_values(|v: Vec<usize>| v@);
            proof {
                assert forall|c: Seq<usize>| #[trigger] completions(child, (depth - 1) as nat, problem.spec_flavors()).contains(c)
                    implies problem.spec_measurable(c) by {
                    lemma_branch_contains(pre, depth as nat, d as nat, d as nat, v as nat, c);
                    assert(completions(pre, depth as nat, d as nat) == branches(pre, depth as nat, d as nat, d as nat));
                }
                lemma_with_value_concat(*problem, branches(pre, depth as nat, d as nat, v as nat),
                    completions(child, (depth - 1) as nat, d as nat), target as int);
                assert(branches(pre, depth as nat, d as nat, (v + 1) as nat)
                    == branches(pre, depth as nat, d as nat, v as nat) + completions(child, (depth - 1) as nat, d as nat));
            }
            prefix.push(v);
            assert(prefix@ =~= child);
            Self::collect_rec(problem, prefix, depth - 1, d, target, out);
            prefix.pop();
            assert(prefix@ =~= pre);
            assert(out@.map_values(|v: Vec<usize>| v@) =~= out0
                + with_value(*problem, branches(pre, depth as nat, d as nat, (v + 1) as nat), target as int));
            v += 1;
        }
        assert(completions(pre, depth as nat, d as nat) == branches(pre, depth as nat, d as nat, d as nat));
    }

    /// All optimal configurations of the problem, in lexicographic order:
    /// the feasible configurations of the best objective (empty when none is
    /// feasible). The objective of every feasible configuration must fit in
    /// `i32`: each one is computed.
    pub fn find_best<P: SearchProblem>(&self, problem: &P) -> (r: Vec<Vec<usize>>)
        requires
            problem.spec_ready(),
            all_measurable(*problem, Seq::empty(), problem.spec_vars()),
        ensures
            r@.map_values(|v: Vec<usize>| v@) == optimal_configs(*problem,
                completions(Seq::empty(), problem.spec_vars(), problem.spec_flavors())),
    {
        let n = problem.search_vars();
        let d = problem.search_flavors();
        let mut prefix: Vec<usize> = Vec::new();
        let best = Self::best_rec(problem, &mut prefix, n, d);
        let mut out: Vec<Vec<usize>> = Vec::new();
        match best {
            Some(b) => {
                Self::collect_rec(problem, &mut prefix, n, d, b, &mut out);
                assert(Seq::<Vec<usize>>::empty().map_values(|v: Vec<usize>| v@) =~= Seq::<Seq<usize>>::empty());
                assert(out@.map_values(|v: Vec<usize>| v@) =~= with_value(*problem, completions(Seq::empty(), n as nat, d as nat), b as int));
            },
            None => {
                assert(out@.map_values(|v: Vec<usize>| v@) =~= Seq::<Seq<usize>>::empty());
            },
        }
        out
    }
}

/// The objective of a clique configuration, `None` when it is not a clique.
pub open spec fn clique_value(p: Clique, c: Seq<usize>) -> Option<int> {
    if is_clique_spec(p.spec_graph(), c) {
        clique_weight(c, p.spec_weights())
    } else {
        None
    }
}

impl SearchProblem for Clique {
    open spec fn spec_ready(&self) -> bool {
        self.wf()
    }

    open spec fn spec_vars(&self) -> nat {
        self.spec_graph().n()
    }

    open spec fn spec_flavors(&self) -> nat {
        2
    }

    open spec fn spec_maximizes(&self) -> bool {
        true
    }

    open spec fn spec_value(&self, c: Seq<usize>) -> Option<int> {
        clique_value(*self, c)
    }

    open spec fn spec_measurable(&self, c: Seq<usize>) -> bool {
        is_clique_spec(self.spec_graph(), c) ==> clique_weight(c, self.spec_weights()) is Some
    }

    fn search_vars(&self) -> (r: usize) {
        self.num_variables()
    }

    fn search_flavors(&self) -> (r: usize) {
        2
    }

    fn search_maximizes(&self) -> (r: bool) {
        true
    }

    fn search_value(&self, c: &[usize]) -> (r: Option<i32>) {
        if !self.is_satisfied(c) {
            return None;
        }
        Some(self.solution_size(c).size)
    }
}

impl SearchProblem for IndependentSet {
    open spec fn spec_ready(&self) -> bool {
        self.wf()
    }

    open spec fn spec_vars(&self) -> nat {
        self.spec_graph().n()
    }

    open spec fn spec_flavors(&self) -> nat {
        2
    }

    open spec fn spec_maximizes(&self) -> bool {
        true
    }

    open spec fn spec_value(&self, c: Seq<usize>) -> Option<int> {
        if edges_independent(self.spec_graph().edge_seq(), ones(c)) { selected_weight(c, self.spec_weights()) } else { None }
    }

    open spec fn spec_measurable(&self, c: Seq<usize>) -> bool {
        edges_independent(self.spec_graph().edge_seq(), ones(c)) ==> selected_weight(c, self.spec_weights()) is Some
    }

    fn search_vars(&self) -> (r: usize) {
        self.num_variables()
    }

    fn search_flavors(&self) -> (r: usize) {
        2
    }

    fn search_maximizes(&self) -> (r: bool) {
        true
    }

    fn search_value(&self, c: &[usize]) -> (r: Option<i32>) {
        if !self.is_satisfied(c) {
            return None;
        }
        Some(self.solution_size(c).size)
    }
}

impl SearchProblem for DominatingSet {
    open spec fn spec_ready(&self) -> bool {
        self.wf()
    }

    open spec fn spec_vars(&self) -> nat {
        self.spec_graph().n()
    }

    open spec fn spec_flavors(&self) -> nat {
        2
    }

    open spec fn spec_maximizes(&self) -> bool {
        false
    }

    open spec fn spec_value(&self, c: Seq<usize>) -> Option<int> {
        if dominates(self.spec_graph(), c) { selected_weight(c, self.spec_weights()) } else { None }
    }

    open spec fn spec_measurable(&self, c: Seq<usize>) -> bool {
        dominates(self.spec_graph(), c) ==> selected_weight(c, self.spec_weights()) is Some
    }

    fn search_vars(&self) -> (r: usize) {
        self.num_variables()
    }

    fn search_flavors(&self) -> (r: usize) {
        2
    }

    fn search_maximizes(&self) -> (r: bool) {
        false
    }

    fn search_value(&self, c: &[usize]) -> (r: Option<i32>) {
        if !self.is_satisfied(c) {
            return None;
        }
        Some(self.solution_size(c).size)
    }
}

impl SearchProblem for Matching {
    open spec fn spec_ready(&self) -> bool {
        self.wf()
    }

    open spec fn spec_vars(&self) -> nat {
        self.spec_graph().edge_seq().len()
    }

    open spec fn spec_flavors(&self) -> nat {
        2
    }

    open spec fn spec_maximizes(&self) -> bool {
        true
    }

    open spec fn spec_value(&self, c: Seq<usize>) -> Option<int> {
        if is_matching_spec(self.spec_graph().edge_seq(), c) { matching_weight(c, self.spec_weights()) } else { None }
    }

    open spec fn spec_measurable(&self, c: Seq<usize>) -> bool {
        is_matching_spec(self.spec_graph().edge_seq(), c) ==> matching_weight(c, self.spec_weights()) is Some
    }

    fn search_vars(&self) -> (r: usize) {
        self.num_variables()
    }

    fn search_flavors(&self) -> (r: usize) {
        2
    }

    fn search_maximizes(&self) -> (r: bool) {
        true
    }

    fn search_value(&self, c: &[usize]) -> (r: Option<i32>) {
        if !self.is_satisfied(c) {
            return None;
        }
        Some(self.solution_size(c).size)
    }
}

impl SearchProblem for Coloring {
    open spec fn spec_ready(&self) -> bool {
        true
    }

    open spec fn spec_vars(&self) -> nat {
        self.spec_graph().n()
    }

    open spec fn spec_flavors(&self) -> nat {
        self.spec_num_colors() as nat
    }

    open spec fn spec_maximizes(&self) -> bool {
        false
    }

    open spec fn spec_value(&self, c: Seq<usize>) -> Option<int> {
        if proper_coloring(self.spec_graph().edge_seq(), c) {
            Some(count_conflicts(self.spec_graph().edge_seq(), c, self.spec_graph().edge_seq().len() as int) as int)
        } else {
            None
        }
    }

    open spec fn spec_measurable(&self, c: Seq<usize>) -> bool {
        self.spec_graph().edge_seq().len() <= i32::MAX
    }

    fn search_vars(&self) -> (r: usize) {
        self.num_variables()
    }

    fn search_flavors(&self) -> (r: usize) {
        self.num_flavors()
    }

    fn search_maximizes(&self) -> (r: bool) {
        false
    }

    fn search_value(&self, c: &[usize]) -> (r: Option<i32>) {
        if !self.is_satisfied(c) {
            return None;
        }
        Some(self.solution_size(c).size)
    }
}

} // verus!
