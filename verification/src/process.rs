//! Stochastic processes between objects, and their composition.

use vstd::prelude::*;
use crate::model::{Object, FieldValue, texts, single_text};
use crate::strmap::StrMap;
use crate::text::concat3;

verus! {

/// A transition from one object to another that happens with some probability.
#[derive(Debug, Clone)]
pub struct StochasticMorphism {
    pub source: String,
    pub target: String,
    pub morphism_type: String,
    /// Bit pattern of the `f64` probability.
    pub probability: u64,
    pub evidence: Vec<String>,
    /// Bit pattern of the `f64` timestamp, for temporal data.
    pub timestamp: Option<u64>,
}

/// A category whose morphisms are stochastic processes.
#[derive(Debug)]
pub struct ProcessCategory {
    pub name: String,
    pub objects: StrMap<Object>,
    pub processes: Vec<StochasticMorphism>,
}

/// Whether `p2` can follow `p1`: `p1` ends where `p2` starts.
pub open spec fn composable(p1: StochasticMorphism, p2: StochasticMorphism) -> bool {
    p1.target@ == p2.source@
}

/// Whether `r` is the composite of `p1` followed by `p2`, its probability being
/// a result of `combine` on the two probabilities.
pub open spec fn is_composite<F: Fn(u64, u64) -> u64>(
    r: StochasticMorphism,
    p1: StochasticMorphism,
    p2: StochasticMorphism,
    combine: F,
) -> bool {
    &&& r.source@ == p1.source@
    &&& r.target@ == p2.target@
    &&& r.morphism_type@ == p1.morphism_type@ + seq![';'] + p2.morphism_type@
    &&& texts(r.evidence@) == seq!["composed"@]
    &&& r.timestamp == (if p1.timestamp is Some { p1.timestamp } else { p2.timestamp })
    &&& call_ensures(combine, (p1.probability, p2.probability), r.probability)
}

/// The composable pairs `(i, j)` with `j < n`, for a fixed first process `i`.
pub open spec fn row_pairs(ps: Seq<StochasticMorphism>, i: int, n: nat) -> Seq<(int, int)>
    decreases n,
{
    if n == 0 {
        Seq::empty()
    } else {
        let j = n - 1;
        row_pairs(ps, i, j as nat) + if composable(ps[i], ps[j]) {
            seq![(i, j)]
        } else {
            Seq::empty()
        }
    }
}

/// The composable pairs `(i, j)` with `i < n`, in the order of `i` and then of `j`.
pub open spec fn composable_pairs(ps: Seq<StochasticMorphism>, n: nat) -> Seq<(int, int)>
    decreases n,
{
    if n == 0 {
        Seq::empty()
    } else {
        composable_pairs(ps, (n - 1) as nat) + row_pairs(ps, n - 1, ps.len())
    }
}

proof fn lemma_row_pairs_bounds(ps: Seq<StochasticMorphism>, i: int, n: nat)
    requires
        0 <= i < ps.len(),
        n <= ps.len(),
    ensures
        forall|k: int| 0 <= k < row_pairs(ps, i, n).len() ==> {
            let pr = #[trigger] row_pairs(ps, i, n)[k];
            pr.0 == i && 0 <= pr.1 < n && composable(ps[pr.0], ps[pr.1])
        },
    decreases n,
{
    if n > 0 {
        lemma_row_pairs_bounds(ps, i, (n - 1) as nat);
        let prev = row_pairs(ps, i, (n - 1) as nat);
        let j = n - 1;
        let tail = if composable(ps[i], ps[j]) { seq![(i, j)] } else { Seq::<(int, int)>::empty() };
        assert(row_pairs(ps, i, n) == prev + tail);
        assert forall|k: int| 0 <= k < row_pairs(ps, i, n).len() implies {
            let pr = #[trigger] row_pairs(ps, i, n)[k];
            pr.0 == i && 0 <= pr.1 < n && composable(ps[pr.0], ps[pr.1])
        } by {
            if k < prev.len() {
                assert(row_pairs(ps, i, n)[k] == prev[k]);
            } else {
                assert(row_pairs(ps, i, n)[k] == tail[k - prev.len()]);
            }
        }
    }
}

/// Every composable pair lies within the sequence and is composable.
pub proof fn lemma_composable_pairs_bounds(ps: Seq<StochasticMorphism>, n: nat)
    requires
        n <= ps.len(),
    ensures
        forall|k: int| 0 <= k < composable_pairs(ps, n).len() ==> {
            let pr = #[trigger] composable_pairs(ps, n)[k];
            0 <= pr.0 < n && 0 <= pr.1 < ps.len() && composable(ps[pr.0], ps[pr.1])
        },
    decreases n,
{
    if n > 0 {
        lemma_composable_pairs_bounds(ps, (n - 1) as nat);
        lemma_row_pairs_bounds(ps, n - 1, ps.len());
        let prev = composable_pairs(ps, (n - 1) as nat);
        let row = row_pairs(ps, n - 1, ps.len());
        assert(composable_pairs(ps, n) == prev + row);
        assert forall|k: int| 0 <= k < composable_pairs(ps, n).len() implies {
            let pr = #[trigger] composable_pairs(ps, n)[k];
            0 <= pr.0 < n && 0 <= pr.1 < ps.len() && composable(ps[pr.0], ps[pr.1])
        } by {
            if k < prev.len() {
                assert(composable_pairs(ps, n)[k] == prev[k]);
            } else {
                assert(composable_pairs(ps, n)[k] == row[k - prev.len()]);
            }
        }
    }
}

/// The flat record of a process: its ends, type and probability.
pub open spec fn process_record(c: StochasticMorphism) -> Map<Seq<char>, FieldValue> {
    map![
        "source"@ => FieldValue::Text(c.source),
        "target"@ => FieldValue::Text(c.target),
        "morphism_type"@ => FieldValue::Text(c.morphism_type),
        "probability"@ => FieldValue::Number(c.probability)
    ]
}

/// The flat record of one process.
pub fn process_fields(c: StochasticMorphism) -> (r: StrMap<FieldValue>)
    ensures
        r@ == process_record(c),
{
    let mut r: StrMap<FieldValue> = StrMap::new();
    r.insert("source".to_owned(), FieldValue::Text(c.source));
    r.insert("target".to_owned(), FieldValue::Text(c.target));
    r.insert("morphism_type".to_owned(), FieldValue::Text(c.morphism_type));
    r.insert("probability".to_owned(), FieldValue::Number(c.probability));
    r
}

impl ProcessCategory {
    /// An empty process category with the given name.
    pub fn new(name: String) -> (r: Self)
        ensures
            r.name == name,
            r.objects@ == Map::<Seq<char>, Object>::empty(),
            r.processes@ == Seq::<StochasticMorphism>::empty(),
    {
        ProcessCategory { name, objects: StrMap::new(), processes: Vec::new() }
    }

    /// The composite of `p1` followed by `p2`, when `p1` ends where `p2` starts.
    /// Its probability is what `combine` gives for the two probabilities.
    pub fn compose<F: Fn(u64, u64) -> u64>(
        &self,
        p1: &StochasticMorphism,
        p2: &StochasticMorphism,
        combine: &F,
    ) -> (r: Option<StochasticMorphism>)
        requires
            forall|a: u64, b: u64| combine.requires((a, b)),
        ensures
            r is Some <==> composable(*p1, *p2),
            r matches Some(c) ==> is_composite(c, *p1, *p2, *combine),
    {
        if p1.target == p2.source {
            proof {
                reveal_strlit(";");
                reveal_strlit("composed");
            }
            let probability = combine(p1.probability, p2.probability);
            let timestamp = match p1.timestamp {
                Some(t) => Some(t),
                None => p2.timestamp,
            };
            let r = StochasticMorphism {
                source: p1.source.clone(),
                target: p2.target.clone(),
                morphism_type: concat3(p1.morphism_type.as_str(), ";", p2.morphism_type.as_str()),
                probability,
                evidence: single_text("composed"),
                timestamp,
            };
            assert(r.source@ == p1.source@);
            assert(r.target@ == p2.target@);
            assert(r.morphism_type@ == p1.morphism_type@ + seq![';'] + p2.morphism_type@);
            assert(texts(r.evidence@) == seq!["composed"@]);
            assert(r.timestamp == (if p1.timestamp is Some { p1.timestamp } else { p2.timestamp }));
            assert(call_ensures(*combine, (p1.probability, p2.probability), r.probability));
            Some(r)
        } else {
            None
        }
    }

    /// Every composite of two processes of this category, taken in the order
    /// of the first process and then of the second.
    pub fn find_two_step_processes<F: Fn(u64, u64) -> u64>(&self, combine: &F) -> (r: Vec<StochasticMorphism>)
        requires
            forall|a: u64, b: u64| combine.requires((a, b)),
        ensures
            r@.len() == composable_pairs(self.processes@, self.processes@.len()).len(),
            forall|k: int| 0 <= k < r@.len() ==> {
                let pr = #[trigger] composable_pairs(self.processes@, self.processes@.len())[k];
                &&& 0 <= pr.0 < self.processes@.len()
                &&& 0 <= pr.1 < self.processes@.len()
                &&& composable(self.processes@[pr.0], self.processes@[pr.1])
                &&& is_composite(r@[k], self.processes@[pr.0], self.processes@[pr.1], *combine)
            },
    {
        let ghost ps = self.processes@;
        let n = self.processes.len();
        let mut result: Vec<StochasticMorphism> = Vec::new();
        let mut i: usize = 0;
        while i < n
            invariant
                i <= n,
                n == ps.len(),
                ps == self.processes@,
                forall|a: u64, b: u64| combine.requires((a, b)),
                result@.len() == composable_pairs(ps, i as nat).len(),
                forall|k: int| 0 <= k < result@.len() ==> {
                    let pr = #[trigger] composable_pairs(ps, i as nat)[k];
                    is_composite(result@[k], ps[pr.0], ps[pr.1], *combine)
                },
            decreases n - i,
        {
            let ghost before = composable_pairs(ps, i as nat);
            let mut j: usize = 0;
            while j < n
                invariant
                    i < n,
                    j <= n,
                    n == ps.len(),
                    ps == self.processes@,
                    forall|a: u64, b: u64| combine.requires((a, b)),
                    before == composable_pairs(ps, i as nat),
                    result@.len() == before.len() + row_pairs(ps, i as int, j as nat).len(),
                    forall|k: int| 0 <= k < result@.len() ==> {
                        let pr = #[trigger] (before + row_pairs(ps, i as int, j as nat))[k];
                        is_composite(result@[k], ps[pr.0], ps[pr.1], *combine)
                    },
                decreases n - j,
            {
                let ghost prev_result = result@;
                let ghost prev_pairs = before + row_pairs(ps, i as int, j as nat);
                let c = self.compose(&self.processes[i], &self.processes[j], combine);
                match c {
                    Some(c) => {
                        result.push(c);
                    },
                    None => {},
                }
                proof {
                    let new_pairs = before + row_pairs(ps, i as int, (j + 1) as nat);
                    if composable(ps[i as int], ps[j as int]) {
                        assert(new_pairs =~= prev_pairs.push((i as int, j as int)));
                    } else {
                        assert(new_pairs =~= prev_pairs);
                    }
                    assert forall|k: int| 0 <= k < result@.len() implies {
                        let pr = #[trigger] new_pairs[k];
                        is_composite(result@[k], ps[pr.0], ps[pr.1], *combine)
                    } by {
                        if k < prev_result.len() {
                            assert(result@[k] == prev_result[k]);
                            assert(new_pairs[k] == prev_pairs[k]);
                        }
                    }
                }
                j = j + 1;
            }
            proof {
                assert(composable_pairs(ps, (i + 1) as nat) == before + row_pairs(ps, i as int, ps.len()));
            }
            i = i + 1;
        }
        proof {
            lemma_composable_pairs_bounds(ps, ps.len());
        }
        result
    }
}

} // verus!
