//! Integer Expression Membership: can one value per position sum to the target?
use vstd::prelude::*;
use crate::types::Or;

verus! {

/// Sum of the chosen values over the first `k` positions with checked `u64`
/// addition: `None` when a choice index is out of range or a partial sum
/// overflows.
pub open spec fn chosen_sum(choices: Seq<Vec<u64>>, config: Seq<usize>, k: int) -> Option<int>
    decreases k,
{
    if k <= 0 {
        Some(0)
    } else {
        match chosen_sum(choices, config, k - 1) {
            None => None,
            Some(s) => {
                let options = choices[k - 1]@;
                let idx = config[k - 1];
                if idx >= options.len() {
                    None
                } else if s + options[idx as int] > u64::MAX {
                    None
                } else {
                    Some(s + options[idx as int])
                }
            },
        }
    }
}

/// Given, for each position, a set of nonnegative values, decide whether
/// choosing one value per position can sum exactly to the target.
#[derive(Debug, Clone)]
pub struct IntegerExpressionMembership {
    choices: Vec<Vec<u64>>,
    target: u64,
}

impl IntegerExpressionMembership {
    /// The value sets.
    pub closed spec fn spec_choices(&self) -> Seq<Vec<u64>> {
        self.choices@
    }

    /// The target sum.
    pub closed spec fn spec_target(&self) -> u64 {
        self.target
    }

    /// Creates an instance; panics when a value set is empty.
    pub fn new(choices: Vec<Vec<u64>>, target: u64) -> (r: Self)
        requires
            forall|i: int| 0 <= i < choices@.len() ==> (#[trigger] choices@[i])@.len() > 0,
        ensures
            r.spec_choices() == choices@,
            r.spec_target() == target,
    {
        IntegerExpressionMembership { choices, target }
    }

    /// The value sets.
    pub fn choices(&self) -> (r: &[Vec<u64>])
        ensures
            r@ == self.spec_choices(),
    {
        self.choices.as_slice()
    }

    /// The target sum.
    pub fn target(&self) -> (r: u64)
        ensures
            r == self.spec_target(),
    {
        self.target
    }

    /// Number of positions.
    pub fn num_positions(&self) -> (r: usize)
        ensures
            r == self.spec_choices().len(),
    {
        self.choices.len()
    }

    /// The number of choices at each position.
    pub fn dims(&self) -> (r: Vec<usize>)
        ensures
            r@.len() == self.spec_choices().len(),
            forall|i: int| 0 <= i < r@.len() ==> #[trigger] r@[i] == self.spec_choices()[i]@.len(),
    {
        let mut r: Vec<usize> = Vec::new();
        let mut i: usize = 0;
        while i < self.choices.len()
            invariant
                i <= self.choices@.len(),
                r@.len() == i,
                forall|k: int| 0 <= k < i ==> #[trigger] r@[k] == self.choices@[k]@.len(),
            decreases self.choices.len() - i,
        {
            r.push(self.choices[i].len());
            i += 1;
        }
        r
    }

    /// Whether the configuration picks one valid value per position whose sum
    /// (without overflow) is the target.
    pub fn evaluate(&self, config: &[usize]) -> (r: Or)
        ensures
            r == Or(config@.len() == self.spec_choices().len()
                && chosen_sum(self.spec_choices(), config@, config@.len() as int) == Some(self.spec_target() as int)),
    {
        if config.len() != self.choices.len() {
            return Or(false);
        }
        let mut sum: u64 = 0;
        let mut k: usize = 0;
        while k < config.len()
            invariant
                config@.len() == self.choices@.len(),
                k <= config@.len(),
                chosen_sum(self.choices@, config@, k as int) == Some(sum as int),
            decreases config.len() - k,
        {
            let options = &self.choices[k];
            let idx = config[k];
            if idx >= options.len() || sum > u64::MAX - options[idx] {
                proof { lemma_chosen_sum_none_stays(self.choices@, config@, k as int + 1, config@.len() as int); }
                return Or(false);
            }
            sum = sum + options[idx];
            k += 1;
        }
        Or(sum == self.target)
    }
}

/// Once the sum fails it stays failed.
pub proof fn lemma_chosen_sum_none_stays(choices: Seq<Vec<u64>>, config: Seq<usize>, a: int, b: int)
    requires
        0 <= a <= b,
        chosen_sum(choices, config, a) is None,
    ensures
        chosen_sum(choices, config, b) is None,
    decreases b - a,
{
    if a < b {
        lemma_chosen_sum_none_stays(choices, config, a, b - 1);
    }
}

} // verus!
