//! Maximum Contact Map Overlap: align the residues of two contact maps by an
//! order-preserving partial map so that as many contacts as possible match.
use vstd::prelude::*;
use crate::types::{EvaluationError, Max};

verus! {

/// The pair with its smaller entry first.
pub open spec fn ordered(u: usize, v: usize) -> (usize, usize) {
    if u < v { (u, v) } else { (v, u) }
}

/// The raw contacts are canonical: endpoints below `n`, no loops, and no
/// two equal after ordering.
pub open spec fn contacts_ok(raw: Seq<(usize, usize)>, n: nat) -> bool {
    &&& forall|i: int| 0 <= i < raw.len() ==> (#[trigger] raw[i]).0 < n && raw[i].1 < n && raw[i].0 != raw[i].1
    &&& forall|i: int, j: int| 0 <= i < j < raw.len() ==> ordered(#[trigger] raw[i].0, raw[i].1) != ordered(#[trigger] raw[j].0, raw[j].1)
}

/// Every contact with its smaller endpoint first.
fn canonicalize_contacts(raw: Vec<(usize, usize)>, num_vertices: usize) -> (r: Vec<(usize, usize)>)
    requires
        contacts_ok(raw@, num_vertices as nat),
    ensures
        r@.len() == raw@.len(),
        forall|i: int| 0 <= i < r@.len() ==> #[trigger] r@[i] == ordered(raw@[i].0, raw@[i].1),
{
    let mut out: Vec<(usize, usize)> = Vec::new();
    let mut i: usize = 0;
    while i < raw.len()
        invariant
            i <= raw@.len(),
            out@.len() == i,
            forall|j: int| 0 <= j < i ==> #[trigger] out@[j] == ordered(raw@[j].0, raw@[j].1),
        decreases raw.len() - i,
    {
        let (u, v) = raw[i];
        out.push(if u < v { (u, v) } else { (v, u) });
        i += 1;
    }
    out
}

/// `config` maps each residue of the first map to 0 (unaligned) or to
/// `1 + ` a residue of the second, with the aligned values strictly increasing.
pub open spec fn valid_alignment(config: Seq<usize>, n1: nat, n2: nat) -> bool {
    &&& config.len() == n1
    &&& forall|i: int| 0 <= i < config.len() ==> #[trigger] config[i] <= n2
    &&& forall|i: int, j: int| 0 <= i < j < config.len() && config[i] != 0 && config[j] != 0 ==> #[trigger] config[i] < #[trigger] config[j]
}

/// Contact `c` of the first map lands on a contact of the second.
pub open spec fn contact_kept(c2: Seq<(usize, usize)>, config: Seq<usize>, c: (usize, usize)) -> bool {
    let fi = config[c.0 as int];
    let fk = config[c.1 as int];
    fi != 0 && fk != 0 && c2.contains(ordered((fi - 1) as usize, (fk - 1) as usize))
}

/// Number of the first `k` contacts of the first map that are kept.
pub open spec fn kept_count(c1: Seq<(usize, usize)>, c2: Seq<(usize, usize)>, config: Seq<usize>, k: int) -> nat
    decreases k,
{
    if k <= 0 {
        0
    } else {
        kept_count(c1, c2, config, k - 1) + if contact_kept(c2, config, c1[k - 1]) { 1nat } else { 0nat }
    }
}

proof fn lemma_kept_bound(c1: Seq<(usize, usize)>, c2: Seq<(usize, usize)>, config: Seq<usize>, k: int)
    requires
        k >= 0,
    ensures
        kept_count(c1, c2, config, k) <= k,
    decreases k,
{
    if k > 0 {
        lemma_kept_bound(c1, c2, config, k - 1);
    }
}

/// Given two contact maps (graphs on ordered residues), find an
/// order-preserving partial alignment keeping as many contacts as possible.
#[derive(Debug, Clone)]
pub struct MaximumContactMapOverlap {
    num_vertices_1: usize,
    contacts_1: Vec<(usize, usize)>,
    num_vertices_2: usize,
    contacts_2: Vec<(usize, usize)>,
}

impl MaximumContactMapOverlap {
    /// Residues of the first map.
    pub closed spec fn spec_n1(&self) -> nat {
        self.num_vertices_1 as nat
    }

    /// Residues of the second map.
    pub closed spec fn spec_n2(&self) -> nat {
        self.num_vertices_2 as nat
    }

    /// Contacts of the first map.
    pub closed spec fn spec_contacts_1(&self) -> Seq<(usize, usize)> {
        self.contacts_1@
    }

    /// Contacts of the second map.
    pub closed spec fn spec_contacts_2(&self) -> Seq<(usize, usize)> {
        self.contacts_2@
    }

    /// Contacts of the first map join residues of it.
    pub open spec fn wf(&self) -> bool {
        forall|i: int| 0 <= i < self.spec_contacts_1().len() ==>
            (#[trigger] self.spec_contacts_1()[i]).0 < self.spec_n1() && self.spec_contacts_1()[i].1 < self.spec_n1()
    }

    /// An instance; panics on a contact out of range, a loop or a repeated contact.
    pub fn new(num_vertices_1: usize, contacts_1: Vec<(usize, usize)>, num_vertices_2: usize, contacts_2: Vec<(usize, usize)>) -> (r: Self)
        requires
            contacts_ok(contacts_1@, num_vertices_1 as nat),
            contacts_ok(contacts_2@, num_vertices_2 as nat),
        ensures
            r.wf(),
            r.spec_n1() == num_vertices_1,
            r.spec_n2() == num_vertices_2,
            r.spec_contacts_1().len() == contacts_1@.len(),
            forall|i: int| 0 <= i < contacts_1@.len() ==> #[trigger] r.spec_contacts_1()[i] == ordered(contacts_1@[i].0, contacts_1@[i].1),
            r.spec_contacts_2().len() == contacts_2@.len(),
            forall|i: int| 0 <= i < contacts_2@.len() ==> #[trigger] r.spec_contacts_2()[i] == ordered(contacts_2@[i].0, contacts_2@[i].1),
    {
        let c1 = canonicalize_contacts(contacts_1, num_vertices_1);
        let c2 = canonicalize_contacts(contacts_2, num_vertices_2);
        let r = MaximumContactMapOverlap { num_vertices_1, contacts_1: c1, num_vertices_2, contacts_2: c2 };
        assert forall|i: int| 0 <= i < r.spec_contacts_1().len() implies
            (#[trigger] r.spec_contacts_1()[i]).0 < r.spec_n1() && r.spec_contacts_1()[i].1 < r.spec_n1() by {
            assert(contacts_1@[i].0 < num_vertices_1 && contacts_1@[i].1 < num_vertices_1);
        }
        r
    }

    /// Residues of the first map.
    pub fn num_vertices_1(&self) -> (r: usize)
        ensures
            r == self.spec_n1(),
    {
        self.num_vertices_1
    }

    /// Residues of the second map.
    pub fn num_vertices_2(&self) -> (r: usize)
        ensures
            r == self.spec_n2(),
    {
        self.num_vertices_2
    }

    /// Contacts of the first map.
    pub fn num_contacts_1(&self) -> (r: usize)
        ensures
            r == self.spec_contacts_1().len(),
    {
        self.contacts_1.len()
    }

    /// Contacts of the second map.
    pub fn num_contacts_2(&self) -> (r: usize)
        ensures
            r == self.spec_contacts_2().len(),
    {
        self.contacts_2.len()
    }

    /// The contacts of the first map.
    pub fn contacts_1(&self) -> (r: &[(usize, usize)])
        ensures
            r@ == self.spec_contacts_1(),
    {
        self.contacts_1.as_slice()
    }

    /// The contacts of the second map.
    pub fn contacts_2(&self) -> (r: &[(usize, usize)])
        ensures
            r@ == self.spec_contacts_2(),
    {
        self.contacts_2.as_slice()
    }

    /// Whether `config` is an order-preserving partial alignment.
    #[verifier::loop_isolation(false)]
    pub fn is_valid_solution(&self, config: &[usize]) -> (r: bool)
        ensures
            r == valid_alignment(config@, self.spec_n1(), self.spec_n2()),
    {
        if config.len() != self.num_vertices_1 {
            return false;
        }
        let max_value = self.num_vertices_2;
        let mut previous: usize = 0;
        let mut i: usize = 0;
        while i < config.len()
            invariant
                i <= config@.len(),
                forall|j: int| 0 <= j < i ==> #[trigger] config@[j] <= max_value,
                forall|a: int, b: int| 0 <= a < b < i && config@[a] != 0 && config@[b] != 0 ==> #[trigger] config@[a] < #[trigger] config@[b],
                previous == 0 ==> forall|j: int| 0 <= j < i ==> #[trigger] config@[j] == 0,
                previous != 0 ==> exists|j: int| 0 <= j < i && #[trigger] config@[j] == previous,
                forall|j: int| 0 <= j < i && config@[j] != 0 ==> #[trigger] config@[j] <= previous,
            decreases config.len() - i,
        {
            let value = config[i];
            if value > max_value {
                assert(config@[i as int] > max_value);
                return false;
            }
            if value != 0 {
                if previous != 0 && value <= previous {
                    proof {
                        let j = choose|j: int| 0 <= j < i && #[trigger] config@[j] == previous;
                        assert(!(config@[j] < config@[i as int]));
                    }
                    return false;
                }
                previous = value;
            }
            i += 1;
        }
        true
    }

    /// The number of contacts of the first map kept by `config`, or `None`
    /// for an invalid alignment; an error when the count passes `i64`.
    pub fn preserved_contact_count(&self, config: &[usize]) -> (r: Result<Option<i64>, EvaluationError>)
        requires
            self.wf(),
        ensures
            !valid_alignment(config@, self.spec_n1(), self.spec_n2()) ==> r == Ok::<Option<i64>, EvaluationError>(None),
            valid_alignment(config@, self.spec_n1(), self.spec_n2()) ==> {
                let c = kept_count(self.spec_contacts_1(), self.spec_contacts_2(), config@, self.spec_contacts_1().len() as int);
                if c <= i64::MAX { r == Ok::<Option<i64>, EvaluationError>(Some(c as i64)) } else { r == Err::<Option<i64>, EvaluationError>(EvaluationError::IntegerOverflow) }
            },
    {
        if !self.is_valid_solution(config) {
            return Ok(None);
        }
        let c1 = &self.contacts_1;
        let c2 = &self.contacts_2;
        let mut count: usize = 0;
        let mut k: usize = 0;
        while k < c1.len()
            invariant
                self.wf(),
                config@.len() == self.spec_n1(),
                c1@ == self.spec_contacts_1(),
                c2@ == self.spec_contacts_2(),
                k <= c1@.len(),
                count == kept_count(c1@, c2@, config@, k as int),
            decreases c1.len() - k,
        {
            proof { lemma_kept_bound(c1@, c2@, config@, k as int); }
            let (i, j) = c1[k];
            assert(c1@[k as int] == (i, j));
            let fi = config[i];
            let fk = config[j];
            if fi != 0 && fk != 0 {
                let a = fi - 1;
                let b = fk - 1;
                let pair = if a < b { (a, b) } else { (b, a) };
                let mut found = false;
                let mut x: usize = 0;
                while x < c2.len()
                    invariant
                        x <= c2@.len(),
                        found == exists|y: int| 0 <= y < x && c2@[y] == pair,
                    decreases c2.len() - x,
                {
                    if c2[x].0 == pair.0 && c2[x].1 == pair.1 {
                        found = true;
                    }
                    x += 1;
                }
                if found {
                    count += 1;
                }
            }
            k += 1;
        }
        if (count as u64) > 9223372036854775807u64 {
            return Err(EvaluationError::IntegerOverflow);
        }
        Ok(Some(count as i64))
    }

    /// Each residue of the first map takes 0 or `1 + ` a residue of the second.
    pub fn dims(&self) -> (r: Vec<usize>)
        requires
            self.spec_n2() < usize::MAX,
        ensures
            r@.len() == self.spec_n1(),
            forall|i: int| 0 <= i < r@.len() ==> #[trigger] r@[i] == self.spec_n2() + 1,
    {
        crate::models::graph::uniform_dims(self.num_vertices_1, self.num_vertices_2 + 1)
    }

    /// The number of kept contacts, or `None` for an invalid alignment.
    pub fn evaluate(&self, config: &[usize]) -> (r: Result<Max<i64>, EvaluationError>)
        requires
            self.wf(),
        ensures
            !valid_alignment(config@, self.spec_n1(), self.spec_n2()) ==> r == Ok::<Max<i64>, EvaluationError>(Max(None)),
            valid_alignment(config@, self.spec_n1(), self.spec_n2()) ==> {
                let c = kept_count(self.spec_contacts_1(), self.spec_contacts_2(), config@, self.spec_contacts_1().len() as int);
                if c <= i64::MAX { r == Ok::<Max<i64>, EvaluationError>(Max(Some(c as i64))) } else { r == Err::<Max<i64>, EvaluationError>(EvaluationError::IntegerOverflow) }
            },
    {
        match self.preserved_contact_count(config) {
            Err(e) => Err(e),
            Ok(Some(c)) => Ok(Max(Some(c))),
            Ok(None) => Ok(Max(None)),
        }
    }
}

} // verus!
