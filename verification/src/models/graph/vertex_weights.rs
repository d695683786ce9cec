//! Vertex weights shared by the weighted graph problems: the weight of a
//! selection, whether weights vary, and one objective term per vertex.
use vstd::prelude::*;
use crate::sums::{checked_fold, selected_values, ints32, lemma_selected_values_step, lemma_fold_push};
use crate::types::LocalSolutionSize;

verus! {

/// Positions of a configuration that are selected (value 1).
pub open spec fn ones(config: Seq<usize>) -> Seq<bool> {
    config.map_values(|c: usize| c == 1)
}

/// The checked `i32` sum of the weights of the selected positions (`None` on overflow).
pub open spec fn selected_weight(config: Seq<usize>, w: Seq<i32>) -> Option<int> {
    checked_fold(selected_values(ones(config), ints32(w)), i32::MIN as int, i32::MAX as int)
}

/// The weights are not all equal (`false` when there are none).
pub open spec fn weights_differ(w: Seq<i32>) -> bool {
    w.len() > 0 && exists|i: int| 0 <= i < w.len() && #[trigger] w[i] != w[0]
}

/// Entry `i` is the term that is 0 when `i` is unselected and `w[i]` when it is.
pub open spec fn vertex_terms(r: Seq<LocalSolutionSize<i32>>, w: Seq<i32>) -> bool {
    &&& r.len() == w.len()
    &&& forall|i: int| 0 <= i < r.len() ==> {
        let o = #[trigger] r[i];
        &&& o.num_flavors == 2
        &&& o.variables@ == seq![i as usize]
        &&& o.spec@ == seq![0i32, w[i]]
    }
}

/// All weights equal to one.
pub open spec fn all_ones(w: Seq<i32>) -> bool {
    forall|i: int| 0 <= i < w.len() ==> #[trigger] w[i] == 1
}

pub fn unit_weights(n: usize) -> (r: Vec<i32>)
    ensures
        r@.len() == n,
        all_ones(r@),
{
    let mut r: Vec<i32> = Vec::new();
    let mut i: usize = 0;
    while i < n
        invariant
            i <= n,
            r@.len() == i,
            all_ones(r@),
        decreases n - i,
    {
        r.push(1);
        i += 1;
    }
    r
}


/// Sum of the weights of the positions selected in `config`.
pub fn selection_weight(config: &[usize], weights: &Vec<i32>) -> (total: i32)
    requires
        forall|i: int| weights@.len() <= i < config@.len() ==> config@[i] != 1,
        selected_weight(config@, weights@) is Some,
    ensures
        Some(total as int) == selected_weight(config@, weights@),
{
    let mut total: i32 = 0;
    let mut i: usize = 0;
    let ghost w = ints32(weights@);
    assert(ones(config@).take(0) =~= Seq::<bool>::empty());
    while i < config.len()
        invariant
            i <= config@.len(),
            w == ints32(weights@),
            forall|k: int| weights@.len() <= k < config@.len() ==> config@[k] != 1,
            selected_weight(config@, weights@) is Some,
            checked_fold(selected_values(ones(config@).take(i as int), w), i32::MIN as int, i32::MAX as int)
                == Some(total as int),
        decreases config.len() - i,
    {
        proof {
            lemma_selected_values_step(ones(config@), w, i as int);
            if i < weights@.len() {
                lemma_fold_push(selected_values(ones(config@).take(i as int), w), w[i as int], i32::MIN as int, i32::MAX as int);
                assert(w[i as int] == weights@[i as int] as int);
            }
            lemma_prefix_some(ones(config@), w, i as int + 1);
        }
        if config[i] == 1 {
            total = total + weights[i];
        }
        i += 1;
    }
    assert(ones(config@).take(config@.len() as int) =~= ones(config@));
    total
}

/// Whether the weights are not all equal.
pub fn weights_vary(weights: &Vec<i32>) -> (r: bool)
    ensures
        r == weights_differ(weights@),
{
    if weights.len() == 0 {
        return false;
    }
    let first = weights[0];
    let mut i: usize = 0;
    while i < weights.len()
        invariant
            i <= weights@.len(),
            first == weights@[0],
            forall|j: int| 0 <= j < i ==> #[trigger] weights@[j] == first,
        decreases weights.len() - i,
    {
        if weights[i] != first {
            assert(weights@[i as int] != weights@[0]);
            return true;
        }
        i += 1;
    }
    false
}

/// One objective term per vertex: 0 when unselected, its weight when selected.
pub fn vertex_objectives(weights: &Vec<i32>) -> (r: Vec<LocalSolutionSize<i32>>)
    ensures
        vertex_terms(r@, weights@),
{
    let mut out: Vec<LocalSolutionSize<i32>> = Vec::new();
    let mut i: usize = 0;
    while i < weights.len()
        invariant
            i <= weights@.len(),
            out@.len() == i,
            forall|k: int| 0 <= k < out@.len() ==> {
                let o = #[trigger] out@[k];
                &&& o.num_flavors == 2
                &&& o.variables@ == seq![k as usize]
                &&& o.spec@ == seq![0i32, weights@[k]]
            },
        decreases weights.len() - i,
    {
        let o = LocalSolutionSize::new(2, vec![i], vec![0i32, weights[i]]);
        assert(o.variables@ =~= seq![i]);
        assert(o.spec@ =~= seq![0i32, weights@[i as int]]);
        out.push(o);
        i += 1;
    }
    out
}

/// A longer selection prefix only adds summands, so if the whole sum is
/// `Some`, every prefix sum is too.
proof fn lemma_prefix_some(sel: Seq<bool>, w: Seq<int>, k: int)
    requires
        0 <= k <= sel.len(),
        checked_fold(selected_values(sel, w), i32::MIN as int, i32::MAX as int) is Some,
    ensures
        checked_fold(selected_values(sel.take(k), w), i32::MIN as int, i32::MAX as int) is Some,
    decreases sel.len() - k,
{
    if k < sel.len() {
        lemma_prefix_some(sel, w, k + 1);
        lemma_selected_values_step(sel, w, k);
        lemma_fold_push(selected_values(sel.take(k), w), w[k], i32::MIN as int, i32::MAX as int);
    } else {
        assert(sel.take(k) =~= sel);
    }
}


} // verus!
